//! A loader made of other loaders, searched in order.
use crate::catalog::{args_view, Args};
use crate::languages::{lemma_ref_views_push, ref_views, LanguageTag, TagView};
use crate::loader::shared::opt_text;
use crate::loader::Loader;
use crate::catalog::ArgView;
use std::collections::VecDeque;
use vstd::prelude::*;

verus! {

/// What the first of `loaders` that finds anything finds.
pub open spec fn first_found<L: Loader>(loaders: Seq<L>, lang: TagView, text_id: Seq<char>, args: Seq<(Seq<char>, ArgView)>) -> Option<Seq<char>>
    decreases loaders.len(),
{
    if loaders.len() == 0 {
        None
    } else {
        match loaders[0].found(lang, text_id, args) {
            Some(t) => Some(t),
            None => first_found(loaders.drop_first(), lang, text_id, args),
        }
    }
}

/// The languages of all `loaders`, one after the other.
pub open spec fn all_locales<L: Loader>(loaders: Seq<L>) -> Seq<TagView>
    decreases loaders.len(),
{
    if loaders.len() == 0 {
        Seq::empty()
    } else {
        all_locales(loaders.drop_last()) + loaders.last().locale_list()
    }
}

/// A loader made of other loaders. A lookup asks each in turn, first to
/// last, and the first that finds the text answers; there is no negotiation
/// across loaders.
pub struct MultiLoader<L> {
    pub loaders: VecDeque<L>,
}

impl<L: Loader> MultiLoader<L> {
    /// A loader with no sources.
    pub fn new() -> (r: Self)
        ensures
            r.loaders@.len() == 0,
    {
        MultiLoader { loaders: VecDeque::new() }
    }

    /// A loader with the given sources, searched in this order.
    pub fn from_iter(loaders: Vec<L>) -> (r: Self)
        ensures
            r.loaders@ == loaders@,
    {
        let mut q: VecDeque<L> = VecDeque::new();
        let mut rest = loaders;
        let ghost all = rest@;
        let mut back: Vec<L> = Vec::new();
        while rest.len() > 0
            invariant
                all == rest@ + back@.reverse(),
            decreases rest@.len(),
        {
            let x = rest.pop().unwrap();
            proof {
                assert(rest@.push(x) + back@.reverse() =~= rest@ + back@.push(x).reverse());
            }
            back.push(x);
        }
        while back.len() > 0
            invariant
                all == q@ + back@.reverse(),
            decreases back@.len(),
        {
            let x = back.pop().unwrap();
            proof {
                assert(q@ + back@.push(x).reverse() =~= q@.push(x) + back@.reverse());
            }
            q.push_back(x);
        }
        assert(q@ =~= all);
        MultiLoader { loaders: q }
    }

    /// Adds a source, searched before the others.
    pub fn push_front(&mut self, loader: L)
        ensures
            final(self).loaders@ == seq![loader] + old(self).loaders@,
    {
        self.loaders.push_front(loader);
        assert(self.loaders@ =~= seq![loader] + old(self).loaders@);
    }

    /// Adds a source, searched after the others.
    pub fn push_back(&mut self, loader: L)
        ensures
            final(self).loaders@ == old(self).loaders@.push(loader),
    {
        self.loaders.push_back(loader);
    }
}

impl<L: Loader> Loader for MultiLoader<L> {
    open spec fn found(&self, lang: TagView, text_id: Seq<char>, args: Seq<(Seq<char>, ArgView)>) -> Option<Seq<char>> {
        first_found(self.loaders@, lang, text_id, args)
    }

    open spec fn locale_list(&self) -> Seq<TagView> {
        all_locales(self.loaders@)
    }

    fn try_lookup_complete(&self, lang: &LanguageTag, text_id: &str, args: Option<&Args>) -> (r: Option<String>) {
        let ghost ls = self.loaders@;
        let mut i: usize = 0;
        assert(ls.skip(0) =~= ls);
        while i < self.loaders.len()
            invariant
                i <= ls.len(),
                ls == self.loaders@,
                first_found(ls, lang@, text_id@, args_view(args)) == first_found(ls.skip(i as int), lang@, text_id@, args_view(args)),
            decreases ls.len() - i,
        {
            assert(ls.skip(i as int).drop_first() =~= ls.skip(i + 1));
            assert(ls.skip(i as int)[0] == ls[i as int]);
            if let Some(text) = self.loaders[i].try_lookup_complete(lang, text_id, args) {
                return Some(text);
            }
            i += 1;
        }
        assert(ls.skip(i as int).len() == 0);
        None
    }

    fn locales(&self) -> (r: Vec<&LanguageTag>) {
        let ghost ls = self.loaders@;
        let mut r: Vec<&LanguageTag> = Vec::new();
        let mut i: usize = 0;
        assert(ls.take(0) =~= Seq::<L>::empty());
        while i < self.loaders.len()
            invariant
                i <= ls.len(),
                ls == self.loaders@,
                ref_views(r@) == all_locales(ls.take(i as int)),
            decreases ls.len() - i,
        {
            let part = self.loaders[i].locales();
            let ghost before = ref_views(r@);
            let mut j: usize = 0;
            while j < part.len()
                invariant
                    j <= part@.len(),
                    ref_views(r@) == before + ref_views(part@).take(j as int),
                decreases part@.len() - j,
            {
                proof {
                    lemma_ref_views_push(r@, part@[j as int]);
                    assert(ref_views(part@).take(j + 1) =~= ref_views(part@).take(j as int).push(part@[j as int]@));
                }
                r.push(part[j]);
                j += 1;
            }
            proof {
                assert(ref_views(part@).take(j as int) =~= ref_views(part@));
                assert(ls.take(i + 1).drop_last() =~= ls.take(i as int));
            }
            i += 1;
        }
        assert(ls.take(i as int) =~= ls);
        r
    }
}

/// When the first source finds a text, the composed loader answers with it,
/// whatever the later sources hold.
pub proof fn lemma_first_source_wins<L: Loader>(multi: MultiLoader<L>, lang: TagView, text_id: Seq<char>, args: Seq<(Seq<char>, ArgView)>)
    requires
        multi.loaders@.len() > 0,
        multi.loaders@[0].found(lang, text_id, args) is Some,
    ensures
        multi.found(lang, text_id, args) == multi.loaders@[0].found(lang, text_id, args),
{
}

} // verus!
