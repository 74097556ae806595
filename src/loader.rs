//! The loader contract, and the loaders that implement it.
use crate::catalog::{args_view, Args};
use crate::languages::{ref_views, LanguageTag, TagView};
use crate::loader::shared::opt_text;
use crate::catalog::ArgView;
use vstd::prelude::*;
use vstd::string::StringExecFns;

pub mod any_loader;
pub mod arc_loader;
pub mod multi_loader;
pub mod shared;
pub mod static_loader;

pub use crate::catalog::build_bundles;
pub use crate::fallbacks::build_fallbacks;
pub use any_loader::AnyLoader;
pub use arc_loader::{ArcLoader, ArcLoaderBuilder};
pub use multi_loader::MultiLoader;
pub use static_loader::StaticLoader;

verus! {

/// The text that a lookup which found nothing returns, before the text id.
pub open spec fn unknown_prefix() -> Seq<char> {
    seq!['U', 'n', 'k', 'n', 'o', 'w', 'n', ' ', 'l', 'o', 'c', 'a', 'l', 'i', 'z', 'a', 't', 'i', 'o', 'n', ' ']
}

/// The found text, or the sentinel that names the text id.
pub open spec fn text_or_unknown(found: Option<Seq<char>>, text_id: Seq<char>) -> Seq<char> {
    match found {
        Some(t) => t,
        None => unknown_prefix() + text_id,
    }
}

/// The text `Unknown localization <text_id>`.
pub(crate) fn unknown_localization(text_id: &str) -> (r: String)
    ensures
        r@ == unknown_prefix() + text_id@,
{
    let mut s = String::from_str("Unknown localization ");
    proof {
        reveal_strlit("Unknown localization ");
    }
    s.append(text_id);
    s
}

/// A source of localized messages.
pub trait Loader {
    /// What a lookup of `text_id` for `lang` with `args` finds, if anything.
    spec fn found(&self, lang: TagView, text_id: Seq<char>, args: Seq<(Seq<char>, ArgView)>) -> Option<Seq<char>>;

    /// The languages the loader knows.
    spec fn locale_list(&self) -> Seq<TagView>;

    /// Looks `text_id` up for `lang`, using `args` if given; `None` when
    /// nothing resolves it.
    fn try_lookup_complete(&self, lang: &LanguageTag, text_id: &str, args: Option<&Args>) -> (r: Option<String>)
        ensures
            opt_text(r) == self.found(lang@, text_id@, args_view(args)),
    ;

    /// The languages the loader knows.
    fn locales(&self) -> (r: Vec<&LanguageTag>)
        ensures
            ref_views(r@) == self.locale_list(),
    ;

    /// Looks `text_id` up for `lang`, using `args` if given; the text
    /// `Unknown localization <text_id>` when nothing resolves it.
    fn lookup_complete(&self, lang: &LanguageTag, text_id: &str, args: Option<&Args>) -> (r: String)
        ensures
            r@ == text_or_unknown(self.found(lang@, text_id@, args_view(args)), text_id@),
    {
        match self.try_lookup_complete(lang, text_id, args) {
            Some(text) => text,
            None => unknown_localization(text_id),
        }
    }

    /// Looks `text_id` up for `lang`, without arguments.
    fn lookup(&self, lang: &LanguageTag, text_id: &str) -> (r: String)
        ensures
            r@ == text_or_unknown(self.found(lang@, text_id@, Seq::empty()), text_id@),
    {
        self.lookup_complete(lang, text_id, None)
    }

    /// Looks `text_id` up for `lang` with `args`.
    fn lookup_with_args(&self, lang: &LanguageTag, text_id: &str, args: &Args) -> (r: String)
        ensures
            r@ == text_or_unknown(self.found(lang@, text_id@, args_view(Some(args))), text_id@),
    {
        self.lookup_complete(lang, text_id, Some(args))
    }

    /// Looks `text_id` up for `lang`, without arguments; `None` when nothing
    /// resolves it.
    fn try_lookup(&self, lang: &LanguageTag, text_id: &str) -> (r: Option<String>)
        ensures
            opt_text(r) == self.found(lang@, text_id@, Seq::empty()),
    {
        self.try_lookup_complete(lang, text_id, None)
    }

    /// Looks `text_id` up for `lang` with `args`; `None` when nothing
    /// resolves it.
    fn try_lookup_with_args(&self, lang: &LanguageTag, text_id: &str, args: &Args) -> (r: Option<String>)
        ensures
            opt_text(r) == self.found(lang@, text_id@, args_view(Some(args))),
    {
        self.try_lookup_complete(lang, text_id, Some(args))
    }
}

/// Two lookups with the same inputs on the same loader give the same text:
/// a loader holds no state that a lookup changes.
pub proof fn lemma_lookup_idempotent<L: Loader>(loader: &L, lang: TagView, text_id: Seq<char>, args: Seq<(Seq<char>, ArgView)>, first: Seq<char>, second: Seq<char>)
    requires
        first == text_or_unknown(loader.found(lang, text_id, args), text_id),
        second == text_or_unknown(loader.found(lang, text_id, args), text_id),
    ensures
        first == second,
{
}

/// A loader paired with an optional default language, for template engines.
pub struct FluentLoader<L> {
    loader: L,
    default_lang: Option<LanguageTag>,
}

impl<L> FluentLoader<L> {
    /// Wraps `loader`, with no default language.
    pub fn new(loader: L) -> (r: Self)
        ensures
            r.loader() == loader,
            r.default_lang() is None,
    {
        FluentLoader { loader, default_lang: None }
    }

    /// Sets the default language.
    pub fn with_default_lang(self, lang: LanguageTag) -> (r: Self)
        ensures
            r.loader() == self.loader(),
            r.default_lang() matches Some(d) && d@ == lang@,
    {
        FluentLoader { loader: self.loader, default_lang: Some(lang) }
    }

    pub closed spec fn loader(&self) -> L {
        self.loader
    }

    pub closed spec fn default_lang(&self) -> Option<LanguageTag> {
        self.default_lang
    }

    /// The wrapped loader.
    pub fn inner(&self) -> (r: &L)
        ensures
            *r == self.loader(),
    {
        &self.loader
    }

    /// The default language, if one was set.
    pub fn default_language(&self) -> (r: Option<&LanguageTag>)
        ensures
            r matches Some(d) ==> self.default_lang() matches Some(e) && d@ == e@,
            r is None <==> self.default_lang() is None,
    {
        match &self.default_lang {
            Some(d) => Some(d),
            None => None,
        }
    }
}

} // verus!
