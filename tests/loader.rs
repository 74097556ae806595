use fluent_templates::catalog::{build_bundles, create_bundle, resource_from_str, resources_from_vec, Rendering};
use fluent_templates::fallbacks::build_fallbacks;
use fluent_templates::{
    ArcLoader, ArgValue, Args, LanguageTag, Loader, LoaderError, LookupError, StaticLoader,
};
use std::sync::Arc;

const EN: &str = "hello-world = Hello World!
greeting = Hello
    .placeholder = Your name
label =
    .title = Only a title
parameter = text with a { $param }
only-english = English only
";

const FR: &str = "hello-world = Bonjour le monde!
greeting = Bonjour
";

fn tag(name: &str) -> LanguageTag {
    LanguageTag::parse(name).expect("valid tag")
}

fn sources() -> Vec<(String, Vec<String>)> {
    vec![
        ("en-US".to_string(), vec![EN.to_string()]),
        ("fr".to_string(), vec![FR.to_string()]),
    ]
}

fn loader() -> ArcLoader {
    ArcLoader::builder(sources(), tag("en-US"))
        .customize(false)
        .build()
        .unwrap()
}

#[test]
fn check_if_loader_is_object_safe() {
    let loader = ArcLoader::builder(vec![("en-US".to_string(), vec![EN.to_string()])], tag("en-US"))
        .customize(false)
        .build()
        .unwrap();
    assert_eq!("Hello World!", loader.lookup(&tag("en-US"), "hello-world"));
}

#[test]
fn lookup_uses_the_requested_language() {
    assert_eq!(loader().lookup(&tag("fr"), "hello-world"), "Bonjour le monde!");
}

#[test]
fn unknown_language_falls_back_to_the_fallback_language() {
    assert_eq!(loader().lookup(&tag("de"), "hello-world"), "Hello World!");
}

#[test]
fn missing_message_falls_back_to_the_fallback_language() {
    assert_eq!(loader().lookup(&tag("fr"), "only-english"), "English only");
}

#[test]
fn more_specific_request_uses_the_broader_catalog() {
    assert_eq!(loader().lookup(&tag("fr-CA"), "hello-world"), "Bonjour le monde!");
}

#[test]
fn nothing_found_gives_the_sentinel() {
    let loader = loader();
    assert_eq!(loader.lookup(&tag("fr"), "nope"), "Unknown localization nope");
    assert_eq!(loader.try_lookup(&tag("fr"), "nope"), None);
}

#[test]
fn attributes_are_addressed_with_a_dot() {
    let loader = loader();
    assert_eq!(loader.lookup(&tag("en-US"), "greeting.placeholder"), "Your name");
    assert_eq!(loader.try_lookup(&tag("en-US"), "greeting.nope"), None);
    assert_eq!(loader.lookup(&tag("en-US"), "label.title"), "Only a title");
    assert_eq!(loader.try_lookup(&tag("en-US"), "label"), None);
}

#[test]
fn arguments_are_formatted() {
    let args: Args = vec![("param".to_string(), ArgValue::Text("PARAM".to_string()))];
    let loader = loader();
    assert_eq!(loader.lookup_with_args(&tag("en-US"), "parameter", &args), "text with a PARAM");
    assert_eq!(
        loader.try_lookup_with_args(&tag("en-US"), "parameter", &args),
        Some("text with a PARAM".to_string())
    );
    let numbers: Args = vec![("param".to_string(), ArgValue::Integer(5))];
    assert_eq!(loader.lookup_complete(&tag("en-US"), "parameter", Some(&numbers)), "text with a 5");
}

#[test]
fn missing_argument_is_a_formatting_failure() {
    let loader = loader();
    assert_eq!(loader.try_lookup(&tag("en-US"), "parameter"), None);
    assert!(matches!(
        loader.lookup_single_language(&tag("en-US"), "parameter", None),
        Err(LookupError::FormatErrors(_))
    ));
}

#[test]
fn single_language_lookup_errors() {
    let loader = loader();
    assert!(matches!(
        loader.lookup_single_language(&tag("de"), "hello-world", None),
        Err(LookupError::LangNotLoaded(_))
    ));
    match loader.lookup_single_language(&tag("fr"), "only-english", None) {
        Err(LookupError::MessageRetrieval(id)) => assert_eq!(id, "only-english"),
        _ => panic!("expected a retrieval error"),
    }
    match loader.lookup_single_language(&tag("en-US"), "greeting.nope", None) {
        Err(LookupError::AttributeNotFound { message_id, attribute }) => {
            assert_eq!(message_id, "greeting");
            assert_eq!(attribute, "nope");
        }
        _ => panic!("expected a missing attribute"),
    }
    match loader.lookup_single_language(&tag("en-US"), "nope.title", None) {
        Err(LookupError::MessageRetrieval(id)) => assert_eq!(id, "nope.title"),
        _ => panic!("expected a retrieval error"),
    }
    assert_eq!(
        loader.lookup_single_language(&tag("fr"), "greeting", None).ok(),
        Some("Bonjour".to_string())
    );
}

#[test]
fn no_default_fallback_stays_in_the_chain() {
    let loader = loader();
    assert_eq!(loader.lookup_no_default_fallback(&tag("fr"), "only-english", None), None);
    assert_eq!(
        loader.lookup_no_default_fallback(&tag("fr"), "greeting", None),
        Some("Bonjour".to_string())
    );
    assert_eq!(loader.lookup_no_default_fallback(&tag("de"), "hello-world", None), None);
}

#[test]
fn repeated_lookups_agree() {
    let loader = loader();
    let first = loader.lookup(&tag("fr"), "hello-world");
    let second = loader.lookup(&tag("fr"), "hello-world");
    assert_eq!(first, second);
}

#[test]
fn locales_lists_the_loaded_languages() {
    let loader = loader();
    let locales = loader.locales();
    assert_eq!(locales, vec![&tag("en-US"), &tag("fr")]);
    assert_eq!(loader.fallback(), &tag("en-US"));
}

#[test]
fn shared_resources_reach_every_language() {
    let loader = ArcLoader::builder(sources(), tag("en-US"))
        .shared_resources(Some(vec!["shared = Shared text\n".to_string()]))
        .customize(false)
        .build()
        .unwrap();
    assert_eq!(loader.lookup_single_language(&tag("fr"), "shared", None).ok(), Some("Shared text".to_string()));
    assert_eq!(loader.lookup_single_language(&tag("en-US"), "shared", None).ok(), Some("Shared text".to_string()));
}

#[test]
fn id_repeated_across_shared_and_own_sources_fails_the_build() {
    let result = ArcLoader::builder(sources(), tag("en-US"))
        .shared_resources(Some(vec!["greeting = Shared greeting\n".to_string()]))
        .build();
    match result {
        Err(LoaderError::FluentBundle { errors }) => assert!(!errors.is_empty()),
        _ => panic!("expected a bundle error"),
    }
}

#[test]
fn term_id_repeated_fails_the_build() {
    let result = ArcLoader::builder(
        vec![("en-US".to_string(), vec!["-brand = A\n".to_string(), "-brand = B\n".to_string()])],
        tag("en-US"),
    )
    .build();
    assert!(matches!(result, Err(LoaderError::FluentBundle { .. })));
}

#[test]
fn create_bundle_merges_shared_then_own_and_sets_isolation() {
    let shared = vec![Arc::new(resource_from_str("shared = S\n").unwrap())];
    let own = vec![Arc::new(resource_from_str("own = O { $x }\n").unwrap())];
    let args: Args = vec![("x".to_string(), ArgValue::Text("X".to_string()))];
    let plain = create_bundle(tag("de"), &own, &shared, false).unwrap();
    assert_eq!(plain.language(), &tag("de"));
    assert!(plain.has_message("shared") && plain.has_message("own"));
    assert!(matches!(plain.render("own", None, Some(&args)), Rendering::Text(t) if t == "O X"));
    let isolated = create_bundle(tag("de"), &own, &shared, true).unwrap();
    assert!(matches!(isolated.render("own", None, Some(&args)), Rendering::Text(t) if t == "O \u{2068}X\u{2069}"));
    let empty = create_bundle(tag("de"), &[], &[], true).unwrap();
    assert!(!empty.has_message("own"));
}

#[test]
fn long_fractions_are_refused() {
    let text = "n = { 1.000000000000000000000 ->\n    [one] a\n   *[other] b\n}\n";
    assert!(matches!(resource_from_str(text), Err(LoaderError::LongFraction)));
    assert!(resource_from_str("n = { 1.0000000000000000000 ->\n    [one] a\n   *[other] b\n}\n").is_ok());
    let result = ArcLoader::builder(vec![("en".to_string(), vec![text.to_string()])], tag("en")).build();
    assert!(matches!(result, Err(LoaderError::LongFraction)));
}

#[test]
fn plural_selection_on_integer_arguments() {
    let loader = ArcLoader::builder(
        vec![("en".to_string(), vec!["n = { $c ->\n    [one] one item\n   *[other] { $c } items\n}\n".to_string()])],
        tag("en"),
    )
    .customize(false)
    .build()
    .unwrap();
    let one: Args = vec![("c".to_string(), ArgValue::Integer(1))];
    let many: Args = vec![("c".to_string(), ArgValue::Integer(3))];
    assert_eq!(loader.lookup_with_args(&tag("en"), "n", &one), "one item");
    assert_eq!(loader.lookup_with_args(&tag("en"), "n", &many), "3 items");
}

#[test]
fn create_bundle_refuses_a_repeated_id() {
    let shared = vec![Arc::new(resource_from_str("same = S\n").unwrap())];
    let own = vec![Arc::new(resource_from_str("same = O\n").unwrap())];
    let result = create_bundle(tag("de"), &own, &shared, true);
    assert!(matches!(result, Err(LoaderError::FluentBundle { .. })));
}

#[test]
fn build_bundles_gives_one_catalog_per_language_or_fails_on_conflict() {
    let core = vec![Arc::new(resource_from_str("core = C\n").unwrap())];
    let fine = vec![
        (tag("en"), vec![Arc::new(resource_from_str("a = A\n").unwrap())]),
        (tag("fr"), vec![Arc::new(resource_from_str("a = B\n").unwrap())]),
    ];
    let catalogs = build_bundles(&fine, &core, true).unwrap();
    assert_eq!(catalogs.len(), 2);
    assert_eq!(catalogs[1].language(), &tag("fr"));
    assert!(catalogs[0].has_message("core") && catalogs[1].has_message("core"));
    let clash = vec![
        (tag("en"), vec![Arc::new(resource_from_str("a = A\n").unwrap())]),
        (tag("fr"), vec![Arc::new(resource_from_str("core = B\n").unwrap())]),
    ];
    assert!(matches!(build_bundles(&clash, &core, true), Err(LoaderError::FluentBundle { .. })));
}

#[test]
fn malformed_language_name_fails_the_build() {
    let result = ArcLoader::builder(
        vec![("not a language".to_string(), vec![EN.to_string()])],
        tag("en-US"),
    )
    .build();
    match result {
        Err(LoaderError::Language { name }) => assert_eq!(name, "not a language"),
        _ => panic!("expected a language error"),
    }
}

#[test]
fn malformed_source_fails_the_build() {
    let result = ArcLoader::builder(
        vec![("en-US".to_string(), vec!["= no id".to_string()])],
        tag("en-US"),
    )
    .build();
    assert!(matches!(result, Err(LoaderError::Fluent { .. })));
    assert!(resource_from_str("= no id").is_err());
    assert!(resource_from_str("ok = fine").is_ok());
    assert!(resources_from_vec(&["a = b".to_string(), "?".to_string()]).is_err());
    assert_eq!(resources_from_vec(&["a = b".to_string(), "c = d".to_string()]).unwrap().len(), 2);
}

#[test]
fn duplicate_message_fails_the_build() {
    let result = ArcLoader::builder(
        vec![("en-US".to_string(), vec![EN.to_string(), "hello-world = again".to_string()])],
        tag("en-US"),
    )
    .build();
    assert!(matches!(result, Err(LoaderError::FluentBundle { .. })));
}

#[test]
fn static_loader_resolves_like_the_runtime_one() {
    let en = Arc::new(resource_from_str(EN).unwrap());
    let fr = Arc::new(resource_from_str(FR).unwrap());
    let resources = vec![(tag("en-US"), vec![en]), (tag("fr"), vec![fr])];
    let bundles = build_bundles(&resources, &[], false).unwrap();
    let languages = vec![tag("en-US"), tag("fr")];
    let fallbacks = build_fallbacks(&languages);
    let bundles: &'static [_] = Box::leak(bundles.into_boxed_slice());
    let fallbacks = Box::leak(Box::new(fallbacks));
    let loader = StaticLoader::new(bundles, fallbacks, tag("en-US"));
    assert_eq!(loader.lookup(&tag("fr"), "hello-world"), "Bonjour le monde!");
    assert_eq!(loader.lookup(&tag("de"), "hello-world"), "Hello World!");
    assert_eq!(loader.lookup_single_language(&tag("fr"), "only-english", None), None);
    assert_eq!(
        loader.lookup_no_default_fallback(&tag("fr"), "greeting", None),
        Some("Bonjour".to_string())
    );
    assert_eq!(loader.locales().len(), 2);
}
