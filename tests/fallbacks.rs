use fluent_templates::fallbacks::build_fallbacks;
use fluent_templates::LanguageTag;

fn tags(names: &[&str]) -> Vec<LanguageTag> {
    names.iter().map(|n| LanguageTag::parse(n).expect("valid tag")).collect()
}

#[test]
fn every_language_heads_its_own_chain() {
    let locales = tags(&["de", "de-DE-1996", "en-US", "de-DE", "de-CH", "und-DE"]);
    let map = build_fallbacks(&locales);
    for locale in &locales {
        let chain = map.get(locale).expect("a chain");
        assert_eq!(&chain[0], locale);
    }
}

#[test]
fn chains_rank_by_specificity() {
    let locales = tags(&["de", "de-DE-1996", "en-US", "de-DE", "de-CH"]);
    let map = build_fallbacks(&locales);
    let chain = map.get(&locales[1]).unwrap();
    assert_eq!(chain, &tags(&["de-DE-1996", "de-DE", "de"]));
    assert_eq!(map.get(&locales[2]).unwrap(), &tags(&["en-US"]));
    assert!(map.get(&LanguageTag::parse("fr").unwrap()).is_none());
}

#[test]
fn repeated_locales_give_one_chain() {
    let locales = tags(&["de", "de"]);
    let map = build_fallbacks(&locales);
    assert_eq!(map.languages().len(), 1);
    assert_eq!(map.get(&locales[0]).unwrap(), &tags(&["de", "de"]));
}
