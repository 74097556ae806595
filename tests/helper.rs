use fluent_templates::{FluentHelper, FluentLoader, LanguageTag};

#[test]
fn helper_holds_its_loader() {
    let helper = FluentHelper::new(7u32);
    assert_eq!(*helper.inner(), 7);
}

#[test]
fn fluent_loader_default_language() {
    let loader = FluentLoader::new(3u8);
    assert!(loader.default_language().is_none());
    let loader = loader.with_default_lang(LanguageTag::parse("de").unwrap());
    assert_eq!(loader.default_language(), Some(&LanguageTag::parse("de").unwrap()));
    assert_eq!(*loader.inner(), 3);
}
