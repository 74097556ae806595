//! Lookup of one message in one language, and along a fallback chain; shared
//! by the concrete loaders.
use crate::catalog::{args_view, bundle_messages, formatted, has_part, Args, Bundle, Catalog, Rendering};
use crate::error::LookupError;
use crate::fallbacks::FallbackMap;
use crate::languages::{filtered, lemma_self_first, lemma_unmatched_filters_nothing, tag_matches, negotiate_languages, ref_views, views, LanguageTag, TagView};
use crate::catalog::ArgView;
use vstd::prelude::*;
use vstd::string::StrSliceExecFns;

verus! {

/// `i` is the position of the first `.` of `s`.
pub open spec fn is_first_dot(s: Seq<char>, i: int) -> bool {
    0 <= i < s.len() && s[i] == '.' && forall|j: int| 0 <= j < i ==> s[j] != '.'
}

/// The message a text id names: all of it, or what comes before its first `.`.
pub open spec fn message_of(text_id: Seq<char>) -> Seq<char> {
    if exists|i: int| is_first_dot(text_id, i) {
        text_id.take(choose|i: int| is_first_dot(text_id, i))
    } else {
        text_id
    }
}

/// The attribute a text id names: what comes after its first `.`, if any.
pub open spec fn attribute_of(text_id: Seq<char>) -> Option<Seq<char>> {
    if exists|i: int| is_first_dot(text_id, i) {
        Some(text_id.skip((choose|i: int| is_first_dot(text_id, i)) + 1))
    } else {
        None
    }
}

/// What looking a text id up in one language comes to.
pub enum Outcome {
    /// No catalog for the language.
    NotLoaded,
    /// No such message, or a message without a value where the value was asked.
    NoMessage,
    /// The message has no such attribute.
    NoAttribute,
    /// The formatted text.
    Found(Seq<char>),
    /// Formatting reported errors.
    Failed,
}

/// The outcome of looking `text_id` up in one bundle.
pub open spec fn outcome_in(b: Bundle, text_id: Seq<char>, args: Seq<(Seq<char>, ArgView)>) -> Outcome {
    let message = message_of(text_id);
    let part = attribute_of(text_id);
    let m = bundle_messages(b);
    if !has_part(m, message, part) {
        if part is Some && m.contains_key(message) {
            Outcome::NoAttribute
        } else {
            Outcome::NoMessage
        }
    } else {
        match formatted(b, message, part, args) {
            Some(t) => Outcome::Found(t),
            None => Outcome::Failed,
        }
    }
}

/// `i` is the first catalog of `lang`.
pub open spec fn is_catalog_of(cats: Seq<(TagView, Bundle)>, lang: TagView, i: int) -> bool {
    0 <= i < cats.len() && cats[i].0 == lang && forall|j: int| 0 <= j < i ==> cats[j].0 != lang
}

pub open spec fn catalog_views(cats: Seq<Catalog>) -> Seq<(TagView, Bundle)> {
    cats.map_values(|c: Catalog| c@)
}

/// The outcome of looking `text_id` up in the catalog of `lang`.
pub open spec fn single_outcome(cats: Seq<(TagView, Bundle)>, lang: TagView, text_id: Seq<char>, args: Seq<(Seq<char>, ArgView)>) -> Outcome {
    if exists|i: int| is_catalog_of(cats, lang, i) {
        outcome_in(cats[choose|i: int| is_catalog_of(cats, lang, i)].1, text_id, args)
    } else {
        Outcome::NotLoaded
    }
}

/// The text that the first language of `chain` that resolves `text_id` gives.
pub open spec fn resolve_chain(cats: Seq<(TagView, Bundle)>, chain: Seq<TagView>, text_id: Seq<char>, args: Seq<(Seq<char>, ArgView)>) -> Option<Seq<char>>
    decreases chain.len(),
{
    if chain.len() == 0 {
        None
    } else {
        match single_outcome(cats, chain[0], text_id, args) {
            Outcome::Found(t) => Some(t),
            _ => resolve_chain(cats, chain.drop_first(), text_id, args),
        }
    }
}

pub open spec fn opt_text(r: Option<String>) -> Option<Seq<char>> {
    match r {
        Some(s) => Some(s@),
        None => None,
    }
}

/// The languages of the catalogs, in order.
pub open spec fn catalog_languages(cats: Seq<(TagView, Bundle)>) -> Seq<TagView> {
    cats.map_values(|c: (TagView, Bundle)| c.0)
}

/// What a loader over `cats` with fallback language `fallback` finds: the
/// first text along the chain that negotiating `lang` against the loaded
/// languages gives; failing that, and when `lang` is not the fallback
/// language, the text found in the fallback language. A language without a
/// catalog has the chain that negotiation gives it, often empty, and so falls
/// through to the fallback language.
pub open spec fn loader_found(cats: Seq<(TagView, Bundle)>, fallback: TagView, lang: TagView, text_id: Seq<char>, args: Seq<(Seq<char>, ArgView)>) -> Option<Seq<char>> {
    match resolve_chain(cats, filtered(seq![lang], catalog_languages(cats)), text_id, args) {
        Some(t) => Some(t),
        None => if lang != fallback {
            match single_outcome(cats, fallback, text_id, args) {
                Outcome::Found(t) => Some(t),
                _ => None,
            }
        } else {
            None
        },
    }
}

/// A language that has a catalog comes first in its own chain: when its
/// catalog formats the text, that text is what the loader finds.
pub proof fn lemma_own_catalog_answers(cats: Seq<(TagView, Bundle)>, fallback: TagView, lang: TagView, text_id: Seq<char>, args: Seq<(Seq<char>, ArgView)>, text: Seq<char>)
    requires
        catalog_languages(cats).contains(lang),
        single_outcome(cats, lang, text_id, args) == Outcome::Found(text),
    ensures
        loader_found(cats, fallback, lang, text_id, args) == Some(text),
{
    lemma_self_first(catalog_languages(cats), lang);
}

/// A language that no loaded language matches, even as a range, has an
/// empty chain: what the loader finds is what the fallback language's
/// catalog gives.
pub proof fn lemma_unmatched_language_falls_back(cats: Seq<(TagView, Bundle)>, fallback: TagView, lang: TagView, text_id: Seq<char>, args: Seq<(Seq<char>, ArgView)>)
    requires
        forall|i: int| 0 <= i < cats.len() ==> !tag_matches(#[trigger] cats[i].0, lang, true, false),
        lang != fallback,
    ensures
        loader_found(cats, fallback, lang, text_id, args) == match single_outcome(cats, fallback, text_id, args) {
            Outcome::Found(t) => Some(t),
            _ => None,
        },
{
    let langs = catalog_languages(cats);
    assert forall|i: int| 0 <= i < langs.len() implies !tag_matches(#[trigger] langs[i], lang, true, false) by {
        assert(langs[i] == cats[i].0);
    }
    lemma_unmatched_filters_nothing(langs, lang);
}

/// `loader_found`, computed over catalogs whose languages are `languages`.
pub fn lookup_with_fallback(cats: &[Catalog], languages: &[LanguageTag], fallback: &LanguageTag, lang: &LanguageTag, text_id: &str, args: Option<&Args>) -> (r: Option<String>)
    requires
        views(languages@) == catalog_languages(catalog_views(cats@)),
    ensures
        opt_text(r) == loader_found(catalog_views(cats@), fallback@, lang@, text_id@, args_view(args)),
{
    let requested = vec![lang.clone()];
    assert(views(requested@) =~= seq![lang@]);
    let chain = negotiate_languages(requested.as_slice(), languages, None);
    if let Some(text) = lookup_chain(cats, chain.as_slice(), text_id, args) {
        return Some(text);
    }
    if !lang.same_as(fallback) {
        if let Ok(text) = lookup_single_language(cats, fallback, text_id, args) {
            return Some(text);
        }
    }
    None
}

/// The position of the first `.` of `s`, if any.
fn find_dot(s: &str) -> (r: Option<usize>)
    ensures
        r matches Some(i) ==> is_first_dot(s@, i as int),
        r is None ==> !exists|i: int| is_first_dot(s@, i),
{
    let n = s.unicode_len();
    let mut i: usize = 0;
    while i < n
        invariant
            n == s@.len(),
            i <= n,
            forall|j: int| 0 <= j < i ==> s@[j] != '.',
        decreases n - i,
    {
        if s.get_char(i) == '.' {
            return Some(i);
        }
        i += 1;
    }
    None
}

/// The catalog of `lang`, if one is loaded.
fn find_catalog<'a>(cats: &'a [Catalog], lang: &LanguageTag) -> (r: Option<&'a Catalog>)
    ensures
        r is Some <==> exists|i: int| is_catalog_of(catalog_views(cats@), lang@, i),
        r matches Some(c) ==> c@ == catalog_views(cats@)[choose|i: int| is_catalog_of(catalog_views(cats@), lang@, i)],
{
    let ghost cv = catalog_views(cats@);
    let mut i: usize = 0;
    while i < cats.len()
        invariant
            i <= cats@.len(),
            cv == catalog_views(cats@),
            forall|j: int| 0 <= j < i ==> cv[j].0 != lang@,
        decreases cats@.len() - i,
    {
        let same = cats[i].language().same_as(lang);
        if same {
            proof {
                assert(is_catalog_of(cv, lang@, i as int));
                let k = choose|k: int| is_catalog_of(cv, lang@, k);
                if k < i {
                    assert(cv[k].0 != lang@);
                } else if i < k {
                    assert(cv[i as int].0 != lang@);
                }
            }
            return Some(&cats[i]);
        }
        assert(cv[i as int] == cats@[i as int]@);
        i += 1;
    }
    None
}

/// Looks `text_id` up in the catalog of `lang` alone. A text id with a `.`
/// names the attribute after its first `.` of the message before it.
pub fn lookup_single_language(cats: &[Catalog], lang: &LanguageTag, text_id: &str, args: Option<&Args>) -> (r: Result<String, LookupError>)
    ensures
        match single_outcome(catalog_views(cats@), lang@, text_id@, args_view(args)) {
            Outcome::NotLoaded => r matches Err(LookupError::LangNotLoaded(l)) && l@ == lang@,
            Outcome::NoMessage => r matches Err(LookupError::MessageRetrieval(id)) && id@ == text_id@,
            Outcome::NoAttribute => r matches Err(LookupError::AttributeNotFound { message_id, attribute })
                && message_id@ == message_of(text_id@) && Some(attribute@) == attribute_of(text_id@),
            Outcome::Found(t) => r matches Ok(s) && s@ == t,
            Outcome::Failed => r matches Err(LookupError::FormatErrors(_)),
        },
{
    let catalog = match find_catalog(cats, lang) {
        Some(c) => c,
        None => return Err(LookupError::LangNotLoaded(lang.clone())),
    };
    let (message, part) = match find_dot(text_id) {
        Some(i) => {
            let n = text_id.unicode_len();
            (text_id.substring_char(0, i), Some(text_id.substring_char(i + 1, n)))
        },
        None => (text_id, None),
    };
    proof {
        if exists|i: int| is_first_dot(text_id@, i) {
            let k = choose|i: int| is_first_dot(text_id@, i);
            assert(message@ =~= text_id@.take(k));
            assert(part matches Some(p) && p@ =~= text_id@.skip(k + 1));
        }
    }
    match catalog.render(message, part, args) {
        Rendering::Text(s) => Ok(s),
        Rendering::Failed(errors) => Err(LookupError::FormatErrors(errors)),
        Rendering::Missing => {
            match part {
                Some(attribute) => {
                    if catalog.has_message(message) {
                        Err(LookupError::AttributeNotFound { message_id: message.to_owned(), attribute: attribute.to_owned() })
                    } else {
                        Err(LookupError::MessageRetrieval(text_id.to_owned()))
                    }
                },
                None => Err(LookupError::MessageRetrieval(text_id.to_owned())),
            }
        },
    }
}

/// Walks `chain` in order and returns the first text found.
pub fn lookup_chain(cats: &[Catalog], chain: &[&LanguageTag], text_id: &str, args: Option<&Args>) -> (r: Option<String>)
    ensures
        opt_text(r) == resolve_chain(catalog_views(cats@), ref_views(chain@), text_id@, args_view(args)),
{
    let ghost cv = catalog_views(cats@);
    let ghost ch = ref_views(chain@);
    let mut i: usize = 0;
    assert(ch.skip(0) =~= ch);
    while i < chain.len()
        invariant
            i <= chain@.len(),
            cv == catalog_views(cats@),
            ch == ref_views(chain@),
            resolve_chain(cv, ch, text_id@, args_view(args)) == resolve_chain(cv, ch.skip(i as int), text_id@, args_view(args)),
        decreases chain@.len() - i,
    {
        assert(ch.skip(i as int).drop_first() =~= ch.skip(i + 1));
        assert(ch.skip(i as int)[0] == chain@[i as int]@);
        if let Ok(text) = lookup_single_language(cats, chain[i], text_id, args) {
            return Some(text);
        }
        i += 1;
    }
    assert(ch.skip(i as int).len() == 0);
    None
}

/// Walks the fallback chain of `lang` only, never the loader's fallback
/// language; `None` when `lang` has no chain or nothing in it resolves.
pub fn lookup_no_default_fallback(cats: &[Catalog], fallbacks: &FallbackMap, lang: &LanguageTag, text_id: &str, args: Option<&Args>) -> (r: Option<String>)
    requires
        fallbacks.wf(),
    ensures
        opt_text(r) == if fallbacks@.contains_key(lang@) {
            resolve_chain(catalog_views(cats@), fallbacks@[lang@], text_id@, args_view(args))
        } else {
            None
        },
{
    let chain = match fallbacks.get(lang) {
        Some(c) => c,
        None => return None,
    };
    let ghost cv = catalog_views(cats@);
    let ghost ch = views(chain@);
    let mut i: usize = 0;
    assert(ch.skip(0) =~= ch);
    while i < chain.len()
        invariant
            i <= chain@.len(),
            cv == catalog_views(cats@),
            ch == views(chain@),
            fallbacks@.contains_key(lang@),
            ch == fallbacks@[lang@],
            resolve_chain(cv, ch, text_id@, args_view(args)) == resolve_chain(cv, ch.skip(i as int), text_id@, args_view(args)),
        decreases chain@.len() - i,
    {
        assert(ch.skip(i as int).drop_first() =~= ch.skip(i + 1));
        assert(ch.skip(i as int)[0] == chain@[i as int]@);
        if let Ok(text) = lookup_single_language(cats, &chain[i], text_id, args) {
            return Some(text);
        }
        i += 1;
    }
    assert(ch.skip(i as int).len() == 0);
    None
}

} // verus!
