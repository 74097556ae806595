//! Fallback chains: for each available language, the ranked languages that
//! may stand in for it.
use crate::languages::{
    filtered, lemma_ref_views_push, lemma_self_first, negotiate_languages, ref_views, views,
    LanguageTag, TagView,
};
use vstd::prelude::*;

verus! {

/// The map of language to chain that a list of pairs with distinct keys stands for.
pub open spec fn pairs_map(s: Seq<(TagView, Seq<TagView>)>) -> Map<TagView, Seq<TagView>>
    decreases s.len(),
{
    if s.len() == 0 {
        Map::empty()
    } else {
        pairs_map(s.drop_last()).insert(s.last().0, s.last().1)
    }
}

/// The chains built from `locales`: each of them maps to its negotiation
/// against all of them.
pub open spec fn fallback_chains(locales: Seq<TagView>) -> Map<TagView, Seq<TagView>> {
    Map::new(|k: TagView| locales.contains(k), |k: TagView| filtered(seq![k], locales))
}

/// Languages mapped to their fallback chains.
pub struct FallbackMap {
    entries: Vec<(LanguageTag, Vec<LanguageTag>)>,
}

pub open spec fn entry_view(e: (LanguageTag, Vec<LanguageTag>)) -> (TagView, Seq<TagView>) {
    (e.0@, views(e.1@))
}

impl View for FallbackMap {
    type V = Map<TagView, Seq<TagView>>;

    closed spec fn view(&self) -> Map<TagView, Seq<TagView>> {
        pairs_map(self.entries@.map_values(|e: (LanguageTag, Vec<LanguageTag>)| entry_view(e)))
    }
}

proof fn lemma_pairs_map(s: Seq<(TagView, Seq<TagView>)>)
    requires
        forall|i: int, j: int| 0 <= i < j < s.len() ==> s[i].0 != s[j].0,
    ensures
        forall|k: TagView| #[trigger] pairs_map(s).contains_key(k) <==> exists|i: int| 0 <= i < s.len() && s[i].0 == k,
        forall|i: int| 0 <= i < s.len() ==> pairs_map(s)[#[trigger] s[i].0] == s[i].1,
    decreases s.len(),
{
    if s.len() > 0 {
        let p = s.drop_last();
        lemma_pairs_map(p);
        assert forall|k: TagView| #[trigger] pairs_map(s).contains_key(k) <==> exists|i: int| 0 <= i < s.len() && s[i].0 == k by {
            if pairs_map(p).contains_key(k) {
                let i = choose|i: int| 0 <= i < p.len() && p[i].0 == k;
                assert(s[i].0 == k);
            }
            if exists|i: int| 0 <= i < s.len() && s[i].0 == k {
                let i = choose|i: int| 0 <= i < s.len() && s[i].0 == k;
                if i < p.len() {
                    assert(p[i].0 == k);
                }
            }
        }
        assert forall|i: int| 0 <= i < s.len() implies pairs_map(s)[#[trigger] s[i].0] == s[i].1 by {
            if i < p.len() {
                assert(p[i].0 == s[i].0);
            }
        }
    }
}

impl FallbackMap {
    /// Keys are distinct.
    pub closed spec fn wf(&self) -> bool {
        forall|i: int, j: int| 0 <= i < j < self.entries@.len() ==> self.entries@[i].0@ != self.entries@[j].0@
    }

    /// The chain of `lang`, if it is a key.
    pub fn get(&self, lang: &LanguageTag) -> (r: Option<&Vec<LanguageTag>>)
        requires
            self.wf(),
        ensures
            r is Some <==> self@.contains_key(lang@),
            r is Some ==> views(r->0@) == self@[lang@],
    {
        let ghost s = self.entries@.map_values(|e: (LanguageTag, Vec<LanguageTag>)| entry_view(e));
        proof {
            assert forall|i: int, j: int| 0 <= i < j < s.len() implies s[i].0 != s[j].0 by {
                assert(s[i].0 == self.entries@[i].0@);
                assert(s[j].0 == self.entries@[j].0@);
            }
            lemma_pairs_map(s);
        }
        let mut i: usize = 0;
        while i < self.entries.len()
            invariant
                i <= self.entries@.len(),
                s == self.entries@.map_values(|e: (LanguageTag, Vec<LanguageTag>)| entry_view(e)),
                forall|j: int| 0 <= j < i ==> s[j].0 != lang@,
                forall|a: int, b: int| 0 <= a < b < s.len() ==> s[a].0 != s[b].0,
            decreases self.entries@.len() - i,
        {
            if self.entries[i].0.same_as(lang) {
                proof {
                    lemma_pairs_map(s);
                }
                assert(s[i as int] == entry_view(self.entries@[i as int]));
                assert(s[i as int].0 == lang@);
                assert(pairs_map(s)[s[i as int].0] == s[i as int].1);
                return Some(&self.entries[i].1);
            }
            assert(s[i as int].0 == self.entries@[i as int].0@);
            i += 1;
        }
        None
    }

    /// The languages that have a chain, in the order they were added.
    pub closed spec fn keys(&self) -> Seq<TagView> {
        self.entries@.map_values(|e: (LanguageTag, Vec<LanguageTag>)| e.0@)
    }

    /// The languages that have a chain, in the order they were added.
    pub fn languages(&self) -> (r: Vec<&LanguageTag>)
        requires
            self.wf(),
        ensures
            ref_views(r@) == self.keys(),
            forall|k: TagView| self@.contains_key(k) <==> ref_views(r@).contains(k),
    {
        let ghost s = self.entries@.map_values(|e: (LanguageTag, Vec<LanguageTag>)| entry_view(e));
        proof {
            assert forall|i: int, j: int| 0 <= i < j < s.len() implies s[i].0 != s[j].0 by {
                assert(s[i].0 == self.entries@[i].0@);
                assert(s[j].0 == self.entries@[j].0@);
            }
        }
        proof {
            lemma_pairs_map(s);
        }
        let mut r: Vec<&LanguageTag> = Vec::new();
        let mut i: usize = 0;
        while i < self.entries.len()
            invariant
                i <= self.entries@.len(),
                s == self.entries@.map_values(|e: (LanguageTag, Vec<LanguageTag>)| entry_view(e)),
                ref_views(r@).len() == i,
                forall|j: int| 0 <= j < i ==> #[trigger] ref_views(r@)[j] == s[j].0,
            decreases self.entries@.len() - i,
        {
            proof {
                lemma_ref_views_push(r@, &self.entries@[i as int].0);
                assert(s[i as int] == entry_view(self.entries@[i as int]));
            }
            r.push(&self.entries[i].0);
            i += 1;
        }
        assert(ref_views(r@) =~= self.keys());
        assert forall|k: TagView| self@.contains_key(k) <==> ref_views(r@).contains(k) by {
            if self@.contains_key(k) {
                let j = choose|j: int| 0 <= j < s.len() && s[j].0 == k;
                assert(ref_views(r@)[j] == k);
            }
            if ref_views(r@).contains(k) {
                let j = choose|j: int| 0 <= j < ref_views(r@).len() && ref_views(r@)[j] == k;
                assert(s[j].0 == k);
            }
        }
        r
    }
}

fn clone_tags(v: &Vec<&LanguageTag>) -> (r: Vec<LanguageTag>)
    ensures
        views(r@) == ref_views(v@),
{
    let mut r: Vec<LanguageTag> = Vec::new();
    let mut i: usize = 0;
    while i < v.len()
        invariant
            i <= v@.len(),
            views(r@) == ref_views(v@).take(i as int),
        decreases v@.len() - i,
    {
        let t = v[i].clone();
        proof {
            assert(views(r@.push(t)) =~= views(r@).push(t@));
            assert(ref_views(v@).take(i + 1) =~= ref_views(v@).take(i as int).push(v@[i as int]@));
        }
        r.push(t);
        i += 1;
    }
    assert(ref_views(v@).take(i as int) =~= ref_views(v@));
    r
}

/// For every language of `locales`, its chain: `locales` negotiated against
/// that language alone, with no default.
pub fn build_fallbacks(locales: &[LanguageTag]) -> (r: FallbackMap)
    ensures
        r.wf(),
        r@ == fallback_chains(views(locales@)),
{
    let ghost all = views(locales@);
    let mut entries: Vec<(LanguageTag, Vec<LanguageTag>)> = Vec::new();
    let mut i: usize = 0;
    while i < locales.len()
        invariant
            i <= locales@.len(),
            all == views(locales@),
            forall|a: int, b: int| 0 <= a < b < entries@.len() ==> entries@[a].0@ != entries@[b].0@,
            pairs_map(entries@.map_values(|e: (LanguageTag, Vec<LanguageTag>)| entry_view(e)))
                == Map::new(|k: TagView| all.take(i as int).contains(k), |k: TagView| filtered(seq![k], all)),
        decreases locales@.len() - i,
    {
        let ghost es = entries@.map_values(|e: (LanguageTag, Vec<LanguageTag>)| entry_view(e));
        let ghost before = Map::new(|k: TagView| all.take(i as int).contains(k), |k: TagView| filtered(seq![k], all));
        let ghost after = Map::new(|k: TagView| all.take(i + 1).contains(k), |k: TagView| filtered(seq![k], all));
        assert(all.take(i + 1) =~= all.take(i as int).push(locales@[i as int]@));
        let mut known = false;
        let mut j: usize = 0;
        while j < entries.len()
            invariant
                j <= entries@.len(),
                i < locales@.len(),
                all == views(locales@),
                before == Map::new(|k: TagView| all.take(i as int).contains(k), |k: TagView| filtered(seq![k], all)),
                known ==> all.take(i as int).contains(locales@[i as int]@),
                !known ==> forall|b: int| 0 <= b < j ==> entries@[b].0@ != locales@[i as int]@,
                es == entries@.map_values(|e: (LanguageTag, Vec<LanguageTag>)| entry_view(e)),
                pairs_map(es) == before,
                forall|a: int, b: int| 0 <= a < b < entries@.len() ==> entries@[a].0@ != entries@[b].0@,
            decreases entries@.len() - j,
        {
            if entries[j].0.same_as(&locales[i]) {
                proof {
                    assert forall|a: int, b: int| 0 <= a < b < es.len() implies es[a].0 != es[b].0 by {
                        assert(es[a].0 == entries@[a].0@);
                        assert(es[b].0 == entries@[b].0@);
                    }
                    lemma_pairs_map(es);
                    assert(es[j as int].0 == locales@[i as int]@);
                    assert(before.contains_key(locales@[i as int]@));
                }
                known = true;
            }
            j += 1;
        }
        if known {
            assert(after =~= before);
        } else {
            let lang = locales[i].clone();
            let req = vec![locales[i].clone()];
            assert(views(req@) =~= seq![locales@[i as int]@]);
            let chain_refs = negotiate_languages(req.as_slice(), locales, None);
            let chain = clone_tags(&chain_refs);
            proof {
                let e = (lang, chain);
                assert(views(chain@) == filtered(seq![lang@], all));
                assert forall|k: TagView| after.contains_key(k) <==> before.insert(lang@, views(chain@)).contains_key(k) by {
                    let t1 = all.take(i + 1);
                    if t1.contains(k) && k != lang@ {
                        let x = choose|x: int| 0 <= x < t1.len() && #[trigger] t1[x] == k;
                        assert(all.take(i as int)[x] == k);
                    }
                    if k == lang@ {
                        assert(all.take(i + 1)[i as int] == k);
                    }
                }
                assert(es.push(entry_view(e)) =~= entries@.push(e).map_values(|e: (LanguageTag, Vec<LanguageTag>)| entry_view(e)));
                assert(es.push(entry_view(e)).drop_last() =~= es);
                assert(after =~= before.insert(lang@, views(chain@)));
            }
            entries.push((lang, chain));
        }
        i += 1;
    }
    assert(all.take(i as int) =~= all);
    assert(Map::new(|k: TagView| all.take(i as int).contains(k), |k: TagView| filtered(seq![k], all))
        =~= fallback_chains(all));
    FallbackMap { entries }
}

/// Every language of a built fallback map comes first in its own chain.
pub proof fn lemma_fallback_self_match(locales: Seq<TagView>, l: TagView)
    requires
        fallback_chains(locales).contains_key(l),
    ensures
        fallback_chains(locales)[l].len() > 0,
        fallback_chains(locales)[l][0] == l,
{
    lemma_self_first(locales, l);
}

} // verus!
