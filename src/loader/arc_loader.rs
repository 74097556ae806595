//! A loader built at run time from Fluent sources held in memory.
use crate::catalog::{all_fractions_ok, args_view, build_bundles, fractions_ok, ids_of, lemma_parsed_from_concat, lemma_parsed_from_contents, messages_of, parsed_from, all_ids, merged_onto, source_ids, source_messages, text_ids, text_messages, bundle_messages, usable_ftl, Args, Bundle, Catalog};
use crate::error::{LoaderError, LookupError};
use crate::fallbacks::{build_fallbacks, fallback_chains, FallbackMap};
use crate::languages::{parsed_tag, ref_views, views, LanguageTag, TagView};
use crate::loader::shared::{
    attribute_of, catalog_languages, catalog_views, message_of, lookup_no_default_fallback, lookup_single_language,
    lookup_with_fallback, loader_found, opt_text, resolve_chain, single_outcome, Outcome,
};
use crate::loader::Loader;
use crate::catalog::ArgView;
use fluent_bundle::FluentResource;
use std::sync::Arc;
use vstd::prelude::*;

verus! {

/// The settings from which an `ArcLoader` is built: for each language, its
/// name and its Fluent sources; the fallback language; sources shared by all
/// languages; and whether placeables are wrapped in Unicode isolation marks.
pub struct ArcLoaderBuilder {
    sources: Vec<(String, Vec<String>)>,
    fallback: LanguageTag,
    shared: Option<Vec<String>>,
    use_isolating: bool,
}

/// A loader whose catalogs are built at run time.
pub struct ArcLoader {
    bundles: Vec<Catalog>,
    languages: Vec<LanguageTag>,
    fallbacks: FallbackMap,
    fallback: LanguageTag,
}

pub open spec fn names_of(sources: Seq<(String, Vec<String>)>) -> Seq<Seq<char>> {
    sources.map_values(|p: (String, Vec<String>)| p.0@)
}

pub open spec fn texts_of(sources: Seq<String>) -> Seq<Seq<char>> {
    sources.map_values(|s: String| s@)
}

impl ArcLoaderBuilder {
    /// The language names, in order.
    pub closed spec fn names(&self) -> Seq<Seq<char>> {
        names_of(self.sources@)
    }

    /// The Fluent sources of the `i`th language.
    pub closed spec fn texts(&self, i: int) -> Seq<Seq<char>> {
        texts_of(self.sources@[i].1@)
    }

    /// The shared Fluent sources.
    pub closed spec fn shared_texts(&self) -> Seq<Seq<char>> {
        match self.shared {
            Some(s) => texts_of(s@),
            None => Seq::empty(),
        }
    }

    pub closed spec fn fallback_language(&self) -> TagView {
        self.fallback@
    }

    /// Whether placeables get Unicode isolation marks.
    pub closed spec fn isolating(&self) -> bool {
        self.use_isolating
    }

    /// Every shared and per-language Fluent source can be made a resource.
    pub open spec fn sources_usable(&self) -> bool {
        &&& forall|j: int| 0 <= j < self.shared_texts().len() ==> usable_ftl(#[trigger] self.shared_texts()[j])
        &&& forall|i: int, j: int| 0 <= i < self.names().len() && 0 <= j < self.texts(i).len()
            ==> usable_ftl(#[trigger] self.texts(i)[j])
    }

    /// No language's shared and own sources together define a message or
    /// term id twice.
    pub open spec fn ids_distinct(&self) -> bool {
        forall|i: int| 0 <= i < self.names().len() ==> (#[trigger] text_ids(self.shared_texts() + self.texts(i))).no_duplicates()
    }

    /// Adds Fluent sources shared by every language.
    pub fn shared_resources(self, shared: Option<Vec<String>>) -> (r: Self)
        ensures
            r.names() == self.names(),
            forall|i: int| r.texts(i) == self.texts(i),
            r.shared_texts() == match shared {
                Some(s) => texts_of(s@),
                None => Seq::empty(),
            },
            r.fallback_language() == self.fallback_language(),
            r.isolating() == self.isolating(),
    {
        ArcLoaderBuilder { shared, ..self }
    }

    /// Sets the one customisation each language's bundle takes once its
    /// resources are in: whether placeables are wrapped in Unicode isolation
    /// marks (they are unless this is set to `false`).
    pub fn customize(self, use_isolating: bool) -> (r: Self)
        ensures
            r.names() == self.names(),
            forall|i: int| r.texts(i) == self.texts(i),
            r.shared_texts() == self.shared_texts(),
            r.fallback_language() == self.fallback_language(),
            r.isolating() == use_isolating,
    {
        ArcLoaderBuilder { use_isolating, ..self }
    }
}

/// Parses each source into a shared resource, in order.
fn shared_resources_of(sources: &Vec<String>) -> (r: Result<Vec<Arc<FluentResource>>, LoaderError>)
    ensures
        r is Ok <==> forall|i: int| 0 <= i < sources@.len() ==> usable_ftl(#[trigger] sources@[i]@),
        r matches Ok(v) ==> parsed_from(v@, texts_of(sources@)) && all_fractions_ok(v@),
        r is Err ==> r->Err_0 is Fluent || r->Err_0 is LongFraction,
{
    let mut out: Vec<Arc<FluentResource>> = Vec::new();
    let mut i: usize = 0;
    while i < sources.len()
        invariant
            i <= sources@.len(),
            forall|j: int| 0 <= j < i ==> usable_ftl(#[trigger] sources@[j]@),
            out@.len() == i,
            forall|j: int| 0 <= j < i ==> ids_of(#[trigger] out@[j]) == source_ids(sources@[j]@)
                && messages_of(out@[j]) == source_messages(sources@[j]@) && fractions_ok(out@[j]),
        decreases sources@.len() - i,
    {
        match crate::catalog::resource_from_str(sources[i].as_str()) {
            Ok(res) => out.push(Arc::new(res)),
            Err(e) => return Err(e),
        }
        i += 1;
    }
    assert(parsed_from(out@, texts_of(sources@)));
    Ok(out)
}

/// Every name parses as a language tag.
pub open spec fn all_parse(names: Seq<Seq<char>>) -> bool {
    forall|i: int| 0 <= i < names.len() ==> (#[trigger] parsed_tag(names[i])) is Some
}

impl ArcLoaderBuilder {
    /// Builds the loader. Fails on the first language name that does not
    /// parse, then on the first Fluent source that does not parse, and then
    /// when a language's shared and own sources define an id twice;
    /// otherwise succeeds. Each catalog holds the shared sources' messages
    /// followed by its own.
    pub fn build(self) -> (r: Result<ArcLoader, LoaderError>)
        ensures
            !all_parse(self.names()) <==> r matches Err(LoaderError::Language { .. }),
            r matches Err(LoaderError::Language { name }) ==> self.names().contains(name@) && parsed_tag(name@) is None,
            r matches Err(e) && (e is Fluent || e is LongFraction) ==> all_parse(self.names()) && !self.sources_usable(),
            all_parse(self.names()) && self.sources_usable() ==> (r is Ok <==> self.ids_distinct()),
            r matches Err(LoaderError::FluentBundle { errors }) ==> all_parse(self.names()) && self.sources_usable()
                && !self.ids_distinct() && errors@.len() > 0,
            r matches Ok(l) ==> forall|i: int| 0 <= i < self.names().len()
                ==> bundle_messages((#[trigger] l.catalogs()[i]).1) == text_messages(self.shared_texts() + self.texts(i)),
            r matches Ok(l) ==> l.fallback_language() == self.fallback_language()
                && l.locale_list() == self.names().map_values(|n: Seq<char>| parsed_tag(n)->0)
                && l.chains() == fallback_chains(l.locale_list()),
    {
        let ghost names = self.names();
        let ghost shared_texts = self.shared_texts();
        let ArcLoaderBuilder { sources, fallback, shared, use_isolating } = self;
        let mut languages: Vec<LanguageTag> = Vec::new();
        let mut i: usize = 0;
        while i < sources.len()
            invariant
                i <= sources@.len(),
                sources == self.sources,
                names == names_of(sources@),
                names == self.names(),
                languages@.len() == i,
                forall|j: int| 0 <= j < i ==> (#[trigger] parsed_tag(names[j])) == Some(languages@[j]@),
            decreases sources@.len() - i,
        {
            match LanguageTag::parse(sources[i].0.as_str()) {
                Some(t) => languages.push(t),
                None => {
                    assert(names[i as int] == sources@[i as int].0@);
                    assert(names.contains(sources@[i as int].0@));
                    assert(parsed_tag(names[i as int]) is None);
                    return Err(LoaderError::Language { name: sources[i].0.clone() });
                },
            }
            i += 1;
        }
        assert(all_parse(names));
        let no_shared: Vec<String> = Vec::new();
        let shared_sources = match &shared {
            Some(s) => s,
            None => &no_shared,
        };
        assert(texts_of(shared_sources@) == shared_texts);
        let shared_res = match shared_resources_of(shared_sources) {
            Ok(r) => r,
            Err(e) => {
                let ghost j = choose|j: int| 0 <= j < shared_sources@.len() && !usable_ftl(#[trigger] shared_sources@[j]@);
                assert(!usable_ftl(shared_texts[j]));
                return Err(e);
            },
        };
        let mut parsed: Vec<(LanguageTag, Vec<Arc<FluentResource>>)> = Vec::new();
        let mut k: usize = 0;
        while k < sources.len()
            invariant
                k <= sources@.len(),
                sources == self.sources,
                names == names_of(sources@),
                names == self.names(),
                all_parse(names),
                languages@.len() == sources@.len(),
                parsed@.len() == k,
                forall|j: int| 0 <= j < k ==> (#[trigger] parsed@[j]).0@ == languages@[j]@,
                forall|j: int| 0 <= j < sources@.len() ==> (#[trigger] parsed_tag(names[j])) == Some(languages@[j]@),
                forall|j: int| 0 <= j < k ==> parsed_from((#[trigger] parsed@[j]).1@, self.texts(j)),
                forall|j: int| 0 <= j < k ==> all_fractions_ok((#[trigger] parsed@[j]).1@),
                all_fractions_ok(shared_res@),
                forall|j: int, m: int| 0 <= j < k && 0 <= m < self.texts(j).len() ==> usable_ftl(#[trigger] self.texts(j)[m]),
                shared_texts == self.shared_texts(),
                parsed_from(shared_res@, shared_texts),
                forall|m: int| 0 <= m < shared_texts.len() ==> usable_ftl(#[trigger] shared_texts[m]),
            decreases sources@.len() - k,
        {
            let res = match shared_resources_of(&sources[k].1) {
                Ok(r) => r,
                Err(e) => {
                    let ghost j = choose|j: int| 0 <= j < sources@[k as int].1@.len() && !usable_ftl(#[trigger] sources@[k as int].1@[j]@);
                    assert(self.texts(k as int)[j] == sources@[k as int].1@[j]@);
                    return Err(e);
                },
            };
            assert(texts_of(sources@[k as int].1@) == self.texts(k as int));
            parsed.push((languages[k].clone(), res));
            k += 1;
        }
        proof {
            assert forall|i: int| 0 <= i < names.len() implies all_ids(shared_res@ + (#[trigger] parsed@[i]).1@)
                == text_ids(shared_texts + self.texts(i)) && merged_onto(Map::empty(), shared_res@ + parsed@[i].1@)
                == text_messages(shared_texts + self.texts(i)) by {
                lemma_parsed_from_concat(shared_res@, shared_texts, parsed@[i].1@, self.texts(i));
                lemma_parsed_from_contents(shared_res@ + parsed@[i].1@, shared_texts + self.texts(i));
            }
        }
        let bundles = match build_bundles(parsed.as_slice(), shared_res.as_slice(), use_isolating) {
            Ok(b) => b,
            Err(e) => {
                proof {
                    let i = choose|i: int| 0 <= i < parsed@.len() && !all_ids(shared_res@ + (#[trigger] parsed@[i]).1@).no_duplicates();
                    assert(!text_ids(shared_texts + self.texts(i)).no_duplicates());
                }
                return Err(e);
            },
        };
        let fallbacks = build_fallbacks(languages.as_slice());
        assert(views(languages@) =~= catalog_languages(catalog_views(bundles@)));
        let loader = ArcLoader { bundles, languages, fallbacks, fallback };
        assert(loader.locale_list() =~= names.map_values(|n: Seq<char>| parsed_tag(n)->0));
        assert forall|i: int| 0 <= i < names.len() implies (#[trigger] text_ids(shared_texts + self.texts(i))).no_duplicates() by {
            assert(all_ids(shared_res@ + parsed@[i].1@) == text_ids(shared_texts + self.texts(i)));
        }
        proof {
            assert forall|i: int| 0 <= i < names.len() implies bundle_messages((#[trigger] loader.catalogs()[i]).1)
                == text_messages(shared_texts + self.texts(i)) by {
                assert(loader.catalogs()[i] == bundles@[i]@);
                assert(merged_onto(Map::empty(), shared_res@ + parsed@[i].1@) == text_messages(shared_texts + self.texts(i)));
            }
        }
        Ok(loader)
    }
}

impl ArcLoader {
    #[verifier::type_invariant]
    closed spec fn inv(&self) -> bool {
        &&& views(self.languages@) == catalog_languages(catalog_views(self.bundles@))
        &&& self.fallbacks.wf()
        &&& self.fallbacks@ == fallback_chains(views(self.languages@))
    }

    /// The loaded catalogs, in order.
    pub closed spec fn catalogs(&self) -> Seq<(TagView, Bundle)> {
        catalog_views(self.bundles@)
    }

    /// The fallback language.
    pub closed spec fn fallback_language(&self) -> TagView {
        self.fallback@
    }

    /// The fallback chains of the loaded languages.
    pub closed spec fn chains(&self) -> Map<TagView, Seq<TagView>> {
        self.fallbacks@
    }

    /// Starts building a loader from, for each language, its name and its
    /// Fluent sources, with `fallback` as the fallback language.
    pub fn builder(sources: Vec<(String, Vec<String>)>, fallback: LanguageTag) -> (r: ArcLoaderBuilder)
        ensures
            r.names() == names_of(sources@),
            forall|i: int| 0 <= i < sources@.len() ==> r.texts(i) == texts_of(sources@[i].1@),
            r.shared_texts() == Seq::<Seq<char>>::empty(),
            r.fallback_language() == fallback@,
            r.isolating(),
    {
        ArcLoaderBuilder { sources, fallback, shared: None, use_isolating: true }
    }

    /// Looks `text_id` up in the catalog of `lang` alone.
    pub fn lookup_single_language(&self, lang: &LanguageTag, text_id: &str, args: Option<&Args>) -> (r: Result<String, LookupError>)
        ensures
            match single_outcome(self.catalogs(), lang@, text_id@, args_view(args)) {
                Outcome::NotLoaded => r matches Err(LookupError::LangNotLoaded(l)) && l@ == lang@,
                Outcome::NoMessage => r matches Err(LookupError::MessageRetrieval(id)) && id@ == text_id@,
                Outcome::NoAttribute => r matches Err(LookupError::AttributeNotFound { message_id, attribute })
                    && message_id@ == message_of(text_id@) && Some(attribute@) == attribute_of(text_id@),
                Outcome::Found(t) => r matches Ok(s) && s@ == t,
                Outcome::Failed => r matches Err(LookupError::FormatErrors(_)),
            },
    {
        lookup_single_language(self.bundles.as_slice(), lang, text_id, args)
    }

    /// Walks the fallback chain of `lang` only, never the fallback language.
    pub fn lookup_no_default_fallback(&self, lang: &LanguageTag, text_id: &str, args: Option<&Args>) -> (r: Option<String>)
        ensures
            opt_text(r) == if self.chains().contains_key(lang@) {
                resolve_chain(self.catalogs(), self.chains()[lang@], text_id@, args_view(args))
            } else {
                None
            },
    {
        proof {
            use_type_invariant(self);
        }
        lookup_no_default_fallback(self.bundles.as_slice(), &self.fallbacks, lang, text_id, args)
    }

    /// The fallback language.
    pub fn fallback(&self) -> (r: &LanguageTag)
        ensures
            r@ == self.fallback_language(),
    {
        &self.fallback
    }
}

impl Loader for ArcLoader {
    open spec fn found(&self, lang: TagView, text_id: Seq<char>, args: Seq<(Seq<char>, ArgView)>) -> Option<Seq<char>> {
        loader_found(self.catalogs(), self.fallback_language(), lang, text_id, args)
    }

    open spec fn locale_list(&self) -> Seq<TagView> {
        catalog_languages(self.catalogs())
    }

    fn try_lookup_complete(&self, lang: &LanguageTag, text_id: &str, args: Option<&Args>) -> (r: Option<String>) {
        proof {
            use_type_invariant(self);
        }
        lookup_with_fallback(self.bundles.as_slice(), self.languages.as_slice(), &self.fallback, lang, text_id, args)
    }

    fn locales(&self) -> (r: Vec<&LanguageTag>) {
        proof {
            use_type_invariant(self);
        }
        let mut r: Vec<&LanguageTag> = Vec::new();
        let mut i: usize = 0;
        while i < self.languages.len()
            invariant
                i <= self.languages@.len(),
                ref_views(r@) == views(self.languages@).take(i as int),
            decreases self.languages@.len() - i,
        {
            proof {
                crate::languages::lemma_ref_views_push(r@, &self.languages@[i as int]);
                assert(views(self.languages@).take(i + 1) =~= views(self.languages@).take(i as int).push(self.languages@[i as int]@));
            }
            r.push(&self.languages[i]);
            i += 1;
        }
        assert(views(self.languages@).take(i as int) =~= views(self.languages@));
        r
    }
}

} // verus!
