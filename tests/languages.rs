use fluent_templates::languages::{filter_matches, negotiate_languages};
use fluent_templates::LanguageTag;

fn tags(names: &[&str]) -> Vec<LanguageTag> {
    names.iter().map(|n| LanguageTag::parse(n).expect("valid tag")).collect()
}

fn check_filter(requested: &[&str], available: &[&str], expected: &[&str]) {
    let requested = tags(requested);
    let available = tags(available);
    let expected = tags(expected);
    assert_eq!(filter_matches(&requested, &available), expected.iter().collect::<Vec<_>>());
}

#[test]
fn test_hirarchy() {
    check_filter(&["de"], &["de", "de-DE-1996", "en-US", "de-DE", "de-CH"], &["de"]);
    check_filter(&["de-DE"], &["de", "de-DE-1996", "en-US", "de-DE", "de-CH"], &["de-DE", "de"]);
    check_filter(&["de-CH"], &["de", "de-DE-1996", "en-US", "de-DE", "de-CH"], &["de-CH", "de"]);
    check_filter(
        &["de-DE-1996"],
        &["de", "de-DE-1996", "en-US", "de-DE", "de-CH"],
        &["de-DE-1996", "de-DE", "de"],
    );
}

#[test]
fn test_negotiate_languages() {
    let requested = tags(&["de-DE"]);
    let available = tags(&["de-DE", "de", "en-US", "de-CH"]);
    let expected = tags(&["de-DE", "de"]);
    assert_eq!(
        negotiate_languages(&requested, &available, None),
        expected.iter().collect::<Vec<_>>()
    );
}

#[test]
fn default_is_appended_once_when_nothing_matches() {
    let requested = tags(&["xx"]);
    let available = tags(&["de", "en-US"]);
    let result = negotiate_languages(&requested, &available, Some(&available[1]));
    assert_eq!(result, vec![&available[1]]);
}

#[test]
fn default_already_matched_is_not_repeated() {
    let requested = tags(&["en-US"]);
    let available = tags(&["de", "en-US"]);
    let result = negotiate_languages(&requested, &available, Some(&available[1]));
    assert_eq!(result, vec![&available[1]]);
}

#[test]
fn default_follows_the_matches() {
    let requested = tags(&["de-DE"]);
    let available = tags(&["de", "en-US", "de-DE"]);
    let result = negotiate_languages(&requested, &available, Some(&available[1]));
    assert_eq!(result, vec![&available[2], &available[0], &available[1]]);
}

#[test]
fn nothing_requested_matches_nothing() {
    let available = tags(&["de", "en-US"]);
    assert!(filter_matches(&[], &available).is_empty());
    assert!(filter_matches(&tags(&["fr"]), &available).is_empty());
}

#[test]
fn matching_ignores_case_of_the_written_tag() {
    check_filter(&["EN_us"], &["en-US", "en"], &["en-US", "en"]);
}

#[test]
fn duplicates_in_available_each_match() {
    let requested = tags(&["de"]);
    let available = tags(&["de", "en", "de"]);
    let result = filter_matches(&requested, &available);
    assert_eq!(result.len(), 2);
    assert!(std::ptr::eq(result[0], &available[0]));
    assert!(std::ptr::eq(result[1], &available[2]));
}

#[test]
fn several_requests_keep_discovery_order_within_a_specificity() {
    check_filter(&["fr", "de"], &["de", "fr", "en"], &["fr", "de"]);
    check_filter(&["fr", "de-DE"], &["de", "fr-FR", "fr", "de-DE"], &["de-DE", "fr", "de"]);
}

#[test]
fn undetermined_available_language_is_a_wildcard() {
    check_filter(&["de-DE"], &["und-DE", "en-US"], &["und-DE"]);
}

#[test]
fn specificity_counts_script_region_and_variants() {
    assert_eq!(LanguageTag::parse("de").unwrap().specificity(), 0);
    assert_eq!(LanguageTag::parse("de-DE").unwrap().specificity(), 1);
    assert_eq!(LanguageTag::parse("sr-Latn-RS").unwrap().specificity(), 2);
    assert_eq!(LanguageTag::parse("de-Latn-DE-1996").unwrap().specificity(), 3);
}

#[test]
fn malformed_tags_do_not_parse() {
    assert!(LanguageTag::parse("not a tag").is_none());
    assert!(LanguageTag::parse("d").is_none());
    assert!(LanguageTag::parse("de-DE").is_some());
}

#[test]
fn tags_match_as_ranges() {
    let de = LanguageTag::parse("de").unwrap();
    let de_de = LanguageTag::parse("de-DE").unwrap();
    assert!(!de.matches(&de_de, false, false));
    assert!(de.matches(&de_de, true, false));
    assert!(!de.matches(&de_de, false, true));
    assert!(de_de.matches(&de, false, true));
    assert!(LanguageTag::parse("und").unwrap().is_undetermined());
}
