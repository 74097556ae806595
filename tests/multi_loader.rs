use fluent_templates::catalog::{build_bundles, resource_from_str};
use fluent_templates::fallbacks::build_fallbacks;
use fluent_templates::{AnyLoader, ArcLoader, LanguageTag, Loader, MultiLoader, StaticLoader};
use std::sync::Arc;

fn tag(name: &str) -> LanguageTag {
    LanguageTag::parse(name).expect("valid tag")
}

fn source_loader(sources: Vec<(&str, &str)>, fallback: &str) -> ArcLoader {
    let sources = sources
        .into_iter()
        .map(|(lang, text)| (lang.to_string(), vec![text.to_string()]))
        .collect();
    ArcLoader::builder(sources, tag(fallback))
        .customize(false)
        .build()
        .unwrap()
}

fn locales(fallback: &str) -> ArcLoader {
    source_loader(
        vec![("en-US", "hello-world = Hello World!\n"), ("zh-CN", "exists = 儿\n")],
        fallback,
    )
}

fn static_locales() -> StaticLoader {
    let resources = vec![
        (tag("en-US"), vec![Arc::new(resource_from_str("hello-world = Hello World!\n").unwrap())]),
        (tag("zh-CN"), vec![Arc::new(resource_from_str("exists = 儿\n").unwrap())]),
    ];
    let bundles = build_bundles(&resources, &[], true).unwrap();
    let fallbacks = build_fallbacks(&[tag("en-US"), tag("zh-CN")]);
    StaticLoader::new(
        Box::leak(bundles.into_boxed_slice()),
        Box::leak(Box::new(fallbacks)),
        tag("en-US"),
    )
}

#[test]
fn check_if_multiloader_works() {
    let en_loader = locales("en-US");
    let cn_loader = locales("zh-CN");
    let multiloader = MultiLoader::from_iter(vec![
        AnyLoader::Static(static_locales()),
        AnyLoader::Arc(en_loader),
        AnyLoader::Arc(cn_loader),
    ]);
    assert_eq!("Hello World!", multiloader.lookup(&tag("en-US"), "hello-world"));
    assert_eq!("儿", multiloader.lookup(&tag("zh-CN"), "exists"));
}

#[test]
fn first_source_wins() {
    let a = source_loader(vec![("en-US", "hello-world = From A\n")], "en-US");
    let b = source_loader(vec![("en-US", "hello-world = From B\n")], "en-US");
    let multi = MultiLoader::from_iter(vec![a, b]);
    assert_eq!(multi.lookup(&tag("en-US"), "hello-world"), "From A");
}

#[test]
fn later_sources_answer_what_earlier_ones_lack() {
    let a = source_loader(vec![("en-US", "one = One\n")], "en-US");
    let b = source_loader(vec![("en-US", "two = Two\n")], "en-US");
    let mut multi = MultiLoader::new();
    multi.push_back(a);
    multi.push_back(b);
    assert_eq!(multi.lookup(&tag("en-US"), "two"), "Two");
    assert_eq!(multi.try_lookup(&tag("en-US"), "three"), None);
    assert_eq!(multi.lookup(&tag("en-US"), "three"), "Unknown localization three");
}

#[test]
fn push_front_takes_priority() {
    let a = source_loader(vec![("en-US", "hello-world = From A\n")], "en-US");
    let b = source_loader(vec![("en-US", "hello-world = From B\n")], "en-US");
    let mut multi = MultiLoader::from_iter(vec![a]);
    multi.push_front(b);
    assert_eq!(multi.lookup(&tag("en-US"), "hello-world"), "From B");
}

#[test]
fn locales_of_all_sources_are_concatenated() {
    let multi = MultiLoader::from_iter(vec![locales("en-US"), locales("zh-CN")]);
    let all = multi.locales();
    assert_eq!(all, vec![&tag("en-US"), &tag("zh-CN"), &tag("en-US"), &tag("zh-CN")]);
    assert!(MultiLoader::<ArcLoader>::new().locales().is_empty());
}

#[test]
fn static_and_runtime_loaders_compose() {
    let runtime = source_loader(vec![("en-US", "only-runtime = Runtime\n")], "en-US");
    let mut multi = MultiLoader::new();
    multi.push_back(AnyLoader::Static(static_locales()));
    multi.push_back(AnyLoader::Arc(runtime));
    assert_eq!(multi.lookup(&tag("en-US"), "hello-world"), "Hello World!");
    assert_eq!(multi.lookup(&tag("en-US"), "only-runtime"), "Runtime");
    assert_eq!(multi.locales().len(), 3);
}
