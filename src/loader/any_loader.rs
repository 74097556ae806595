//! One type for either concrete loader, so that both can sit in one
//! `MultiLoader`.
use crate::catalog::{args_view, Args};
use crate::languages::{LanguageTag, TagView};
use crate::loader::shared::opt_text;
use crate::loader::{ArcLoader, Loader, StaticLoader};
use crate::catalog::ArgView;
use vstd::prelude::*;

verus! {

/// Either concrete loader; it answers as the loader it holds.
pub enum AnyLoader {
    Static(StaticLoader),
    Arc(ArcLoader),
}

impl Loader for AnyLoader {
    open spec fn found(&self, lang: TagView, text_id: Seq<char>, args: Seq<(Seq<char>, ArgView)>) -> Option<Seq<char>> {
        match self {
            AnyLoader::Static(l) => l.found(lang, text_id, args),
            AnyLoader::Arc(l) => l.found(lang, text_id, args),
        }
    }

    open spec fn locale_list(&self) -> Seq<TagView> {
        match self {
            AnyLoader::Static(l) => l.locale_list(),
            AnyLoader::Arc(l) => l.locale_list(),
        }
    }

    fn try_lookup_complete(&self, lang: &LanguageTag, text_id: &str, args: Option<&Args>) -> (r: Option<String>) {
        match self {
            AnyLoader::Static(l) => l.try_lookup_complete(lang, text_id, args),
            AnyLoader::Arc(l) => l.try_lookup_complete(lang, text_id, args),
        }
    }

    fn locales(&self) -> (r: Vec<&LanguageTag>) {
        match self {
            AnyLoader::Static(l) => l.locales(),
            AnyLoader::Arc(l) => l.locales(),
        }
    }
}

} // verus!
