//! A loader over catalogs that live for the whole program.
use crate::catalog::{args_view, Args, Bundle, Catalog};
use crate::fallbacks::FallbackMap;
use crate::languages::{ref_views, views, LanguageTag, TagView};
use crate::loader::shared::{
    catalog_languages, catalog_views, loader_found, lookup_no_default_fallback,
    lookup_single_language, lookup_with_fallback, opt_text, resolve_chain, single_outcome, Outcome,
};
use crate::loader::Loader;
use crate::catalog::ArgView;
use vstd::prelude::*;

verus! {

/// A loader whose catalogs and fallback chains were built once and are
/// borrowed for the rest of the program.
pub struct StaticLoader {
    bundles: &'static [Catalog],
    fallbacks: &'static FallbackMap,
    fallback: LanguageTag,
    languages: Vec<LanguageTag>,
}

impl StaticLoader {
    #[verifier::type_invariant]
    closed spec fn inv(&self) -> bool {
        &&& views(self.languages@) == catalog_languages(catalog_views(self.bundles@))
        &&& self.fallbacks.wf()
    }

    /// The catalogs, in order.
    pub closed spec fn catalogs(&self) -> Seq<(TagView, Bundle)> {
        catalog_views(self.bundles@)
    }

    /// The fallback language.
    pub closed spec fn fallback_language(&self) -> TagView {
        self.fallback@
    }

    /// The fallback chains.
    pub closed spec fn chains(&self) -> Map<TagView, Seq<TagView>> {
        self.fallbacks@
    }

    /// A loader over `bundles`, with the chains `fallbacks` and the fallback
    /// language `fallback`.
    pub fn new(bundles: &'static [Catalog], fallbacks: &'static FallbackMap, fallback: LanguageTag) -> (r: Self)
        requires
            fallbacks.wf(),
        ensures
            r.catalogs() == catalog_views(bundles@),
            r.chains() == fallbacks@,
            r.fallback_language() == fallback@,
    {
        let mut languages: Vec<LanguageTag> = Vec::new();
        let mut i: usize = 0;
        while i < bundles.len()
            invariant
                i <= bundles@.len(),
                views(languages@) == catalog_languages(catalog_views(bundles@)).take(i as int),
            decreases bundles@.len() - i,
        {
            let t = bundles[i].language().clone();
            proof {
                assert(views(languages@.push(t)) =~= views(languages@).push(t@));
                assert(catalog_languages(catalog_views(bundles@)).take(i + 1) =~= catalog_languages(catalog_views(bundles@)).take(i as int).push(bundles@[i as int]@.0));
            }
            languages.push(t);
            i += 1;
        }
        assert(catalog_languages(catalog_views(bundles@)).take(i as int) =~= catalog_languages(catalog_views(bundles@)));
        StaticLoader { bundles, fallbacks, fallback, languages }
    }

    /// Looks `text_id` up in the catalog of `lang` alone; `None` on any miss
    /// or error.
    pub fn lookup_single_language(&self, lang: &LanguageTag, text_id: &str, args: Option<&Args>) -> (r: Option<String>)
        ensures
            opt_text(r) == match single_outcome(self.catalogs(), lang@, text_id@, args_view(args)) {
                Outcome::Found(t) => Some(t),
                _ => None,
            },
    {
        match lookup_single_language(self.bundles, lang, text_id, args) {
            Ok(text) => Some(text),
            Err(_) => None,
        }
    }

    /// Walks the fallback chain of `lang` only, never the fallback language.
    pub fn lookup_no_default_fallback(&self, lang: &LanguageTag, text_id: &str, args: Option<&Args>) -> (r: Option<String>)
        ensures
            opt_text(r) == if self.chains().contains_key(lang@) {
                resolve_chain(self.catalogs(), self.chains()[lang@], text_id@, args_view(args))
            } else {
                None
            },
    {
        proof {
            use_type_invariant(self);
        }
        lookup_no_default_fallback(self.bundles, self.fallbacks, lang, text_id, args)
    }
}

impl Loader for StaticLoader {
    open spec fn found(&self, lang: TagView, text_id: Seq<char>, args: Seq<(Seq<char>, ArgView)>) -> Option<Seq<char>> {
        loader_found(self.catalogs(), self.fallback_language(), lang, text_id, args)
    }

    open spec fn locale_list(&self) -> Seq<TagView> {
        catalog_languages(self.catalogs())
    }

    fn try_lookup_complete(&self, lang: &LanguageTag, text_id: &str, args: Option<&Args>) -> (r: Option<String>) {
        proof {
            use_type_invariant(self);
        }
        lookup_with_fallback(self.bundles, self.languages.as_slice(), &self.fallback, lang, text_id, args)
    }

    fn locales(&self) -> (r: Vec<&LanguageTag>) {
        proof {
            use_type_invariant(self);
        }
        let mut r: Vec<&LanguageTag> = Vec::new();
        let mut i: usize = 0;
        while i < self.languages.len()
            invariant
                i <= self.languages@.len(),
                ref_views(r@) == views(self.languages@).take(i as int),
            decreases self.languages@.len() - i,
        {
            proof {
                crate::languages::lemma_ref_views_push(r@, &self.languages@[i as int]);
                assert(views(self.languages@).take(i + 1) =~= views(self.languages@).take(i as int).push(self.languages@[i as int]@));
            }
            r.push(&self.languages[i]);
            i += 1;
        }
        assert(views(self.languages@).take(i as int) =~= views(self.languages@));
        r
    }
}

} // verus!
