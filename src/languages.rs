//! Language tags, their matching rules, and negotiation of requested against
//! available languages.
use unic_langid::{LanguageIdentifier, LanguageIdentifierError};
use vstd::prelude::*;

verus! {

#[verifier::external_type_specification]
#[verifier::external_body]
pub struct ExLanguageIdentifier(LanguageIdentifier);

#[verifier::external_type_specification]
#[verifier::external_body]
pub struct ExLanguageIdentifierError(LanguageIdentifierError);

/// The subtag that stands for an undetermined primary language.
pub open spec fn undetermined() -> Seq<char> {
    seq!['u', 'n', 'd']
}

/// The parts of a language tag, as text.
pub struct TagView {
    pub language: Seq<char>,
    pub script: Option<Seq<char>>,
    pub region: Option<Seq<char>>,
    pub variants: Seq<Seq<char>>,
}

/// A parsed language tag: primary language, optional script and region, and
/// variant subtags, each in canonical case.
#[derive(Debug, PartialEq, Eq)]
pub struct LanguageTag {
    id: LanguageIdentifier,
    language: String,
    script: Option<String>,
    region: Option<String>,
    variants: Vec<String>,
}

pub open spec fn opt_view(o: Option<String>) -> Option<Seq<char>> {
    match o {
        Some(s) => Some(s@),
        None => None,
    }
}

/// The texts of a sequence of strings.
pub open spec fn text_seq(v: Seq<String>) -> Seq<Seq<char>> {
    v.map_values(|s: String| s@)
}

impl View for LanguageTag {
    type V = TagView;

    closed spec fn view(&self) -> TagView {
        TagView {
            language: self.language@,
            script: opt_view(self.script),
            region: opt_view(self.region),
            variants: text_seq(self.variants@),
        }
    }
}

/// What parsing a text as a language identifier yields, when it is well formed.
pub uninterp spec fn parsed_tag(s: Seq<char>) -> Option<TagView>;

/// Relies on `LanguageIdentifier::from_str` (unic_langid) to parse and
/// canonicalise a tag, and on the subtags' `as_str` to read its parts back.
#[verifier::external_body]
fn parse_identifier(s: &str) -> (r: Result<LanguageTag, LanguageIdentifierError>)
    ensures
        r is Ok <==> parsed_tag(s@) is Some,
        r is Ok ==> Some(r->Ok_0@) == parsed_tag(s@),
{
    let id: LanguageIdentifier = s.parse()?;
    Ok(LanguageTag {
        language: id.language.as_str().to_string(),
        script: id.script.map(|x| x.as_str().to_string()),
        region: id.region.map(|x| x.as_str().to_string()),
        variants: id.variants().map(|v| v.as_str().to_string()).collect(),
        id,
    })
}

impl LanguageTag {
    /// The identifier this tag was parsed from.
    pub fn identifier(&self) -> &LanguageIdentifier {
        &self.id
    }

    /// Parses a language tag such as `de-DE-1996`; `None` when it is malformed.
    pub fn parse(s: &str) -> (r: Option<LanguageTag>)
        ensures
            r is Some <==> parsed_tag(s@) is Some,
            r is Some ==> Some(r->0@) == parsed_tag(s@),
    {
        match parse_identifier(s) {
            Ok(t) => Some(t),
            Err(_) => None,
        }
    }
}

/// Relies on the `Clone` impl of unic_langid's `LanguageIdentifier`.
pub assume_specification[ <LanguageIdentifier as Clone>::clone ](id: &LanguageIdentifier) -> LanguageIdentifier;

impl Clone for LanguageTag {
    fn clone(&self) -> (r: Self)
        ensures
            r@ == self@,
    {
        let mut variants: Vec<String> = Vec::new();
        let mut i: usize = 0;
        while i < self.variants.len()
            invariant
                i <= self.variants@.len(),
                variants@.len() == i,
                forall|j: int| 0 <= j < i ==> variants@[j]@ == self.variants@[j]@,
            decreases self.variants@.len() - i,
        {
            variants.push(self.variants[i].clone());
            i += 1;
        }
        assert(text_seq(variants@) =~= text_seq(self.variants@));
        LanguageTag {
            id: self.id.clone(),
            language: self.language.clone(),
            script: self.script.clone(),
            region: self.region.clone(),
            variants,
        }
    }
}

/// Whether `a` matches `b`; a side taken as a range treats each of its
/// missing subtags (and the undetermined language) as a wildcard.
pub open spec fn tag_matches(a: TagView, b: TagView, a_range: bool, b_range: bool) -> bool {
    &&& (a_range && a.language == undetermined()) || (b_range && b.language == undetermined())
        || a.language == b.language
    &&& (a_range && a.script is None) || (b_range && b.script is None) || a.script == b.script
    &&& (a_range && a.region is None) || (b_range && b.region is None) || a.region == b.region
    &&& (a_range && a.variants.len() == 0) || (b_range && b.variants.len() == 0)
        || a.variants == b.variants
}

/// How specific a tag is: one for a script, one for a region, one per variant.
pub open spec fn specificity(t: TagView) -> nat {
    (if t.script is Some { 1nat } else { 0nat }) + (if t.region is Some { 1nat } else { 0nat })
        + t.variants.len()
}

fn same_text(a: &String, b: &String) -> (r: bool)
    ensures
        r == (a@ == b@),
{
    a.eq(b)
}

fn same_subtag(a: &Option<String>, b: &Option<String>) -> (r: bool)
    ensures
        r == (opt_view(*a) == opt_view(*b)),
{
    match (a, b) {
        (Some(x), Some(y)) => same_text(x, y),
        (None, None) => true,
        _ => false,
    }
}

fn same_variants(a: &Vec<String>, b: &Vec<String>) -> (r: bool)
    ensures
        r == (text_seq(a@) == text_seq(b@)),
{
    let ghost va = text_seq(a@);
    let ghost vb = text_seq(b@);
    if a.len() != b.len() {
        assert(va.len() != vb.len());
        return false;
    }
    let mut i: usize = 0;
    while i < a.len()
        invariant
            a@.len() == b@.len(),
            va == text_seq(a@),
            vb == text_seq(b@),
            i <= a@.len(),
            forall|j: int| 0 <= j < i ==> va[j] == vb[j],
        decreases a@.len() - i,
    {
        if !same_text(&a[i], &b[i]) {
            assert(va[i as int] != vb[i as int]);
            return false;
        }
        i += 1;
    }
    assert(va =~= vb);
    true
}

impl LanguageTag {
    /// Whether the primary language is undetermined (`und`).
    pub fn is_undetermined(&self) -> (r: bool)
        ensures
            r == (self@.language == undetermined()),
    {
        let und = String::from_str("und");
        proof {
            reveal_strlit("und");
            assert(und@ =~= undetermined());
        }
        same_text(&self.language, &und)
    }

    /// Whether the two tags have the same parts.
    pub fn same_as(&self, other: &LanguageTag) -> (r: bool)
        ensures
            r == (self@ == other@),
    {
        same_text(&self.language, &other.language) && same_subtag(&self.script, &other.script)
            && same_subtag(&self.region, &other.region) && same_variants(&self.variants, &other.variants)
    }

    /// Whether `self` matches `other`, with either side taken as a range.
    pub fn matches(&self, other: &LanguageTag, self_as_range: bool, other_as_range: bool) -> (r: bool)
        ensures
            r == tag_matches(self@, other@, self_as_range, other_as_range),
    {
        let language = (self_as_range && self.is_undetermined()) || (other_as_range
            && other.is_undetermined()) || same_text(&self.language, &other.language);
        let script = (self_as_range && self.script.is_none()) || (other_as_range
            && other.script.is_none()) || same_subtag(&self.script, &other.script);
        let region = (self_as_range && self.region.is_none()) || (other_as_range
            && other.region.is_none()) || same_subtag(&self.region, &other.region);
        let variants = (self_as_range && self.variants.len() == 0) || (other_as_range
            && other.variants.len() == 0) || same_variants(&self.variants, &other.variants);
        language && script && region && variants
    }

    /// How specific the tag is: one for a script, one for a region, one per variant.
    pub fn specificity(&self) -> (r: u128)
        ensures
            r == specificity(self@),
    {
        let mut n: u128 = self.variants.len() as u128;
        if self.script.is_some() {
            n = n + 1;
        }
        if self.region.is_some() {
            n = n + 1;
        }
        n
    }
}



/// The views of a sequence of tags.
pub open spec fn views(s: Seq<LanguageTag>) -> Seq<TagView> {
    s.map_values(|t: LanguageTag| t@)
}

/// The views of a sequence of borrowed tags.
pub open spec fn ref_views(s: Seq<&LanguageTag>) -> Seq<TagView> {
    s.map_values(|t: &LanguageTag| t@)
}

/// Tags that match `req` in the given pass: exactly, or taken as a range.
pub open spec fn matches_req(req: TagView, as_range: bool) -> spec_fn(TagView) -> bool {
    |t: TagView| tag_matches(t, req, as_range, false)
}

pub open spec fn misses_req(req: TagView, as_range: bool) -> spec_fn(TagView) -> bool {
    |t: TagView| !tag_matches(t, req, as_range, false)
}

/// The matches found so far and the tags still available, after serving the
/// requests in order: each request first takes every exact match, then every
/// remaining tag that matches it when taken as a range.
pub open spec fn discovery(requested: Seq<TagView>, available: Seq<TagView>) -> (Seq<TagView>, Seq<TagView>)
    decreases requested.len(),
{
    if requested.len() == 0 {
        (seq![], available)
    } else {
        let (found, rest) = discovery(requested.drop_last(), available);
        let req = requested.last();
        let rest1 = rest.filter(misses_req(req, false));
        (
            found + rest.filter(matches_req(req, false)) + rest1.filter(matches_req(req, true)),
            rest1.filter(misses_req(req, true)),
        )
    }
}

/// The highest specificity in `s`, zero when it is empty.
pub open spec fn max_specificity(s: Seq<TagView>) -> nat
    decreases s.len(),
{
    if s.len() == 0 {
        0
    } else {
        let m = max_specificity(s.drop_last());
        if specificity(s.last()) > m { specificity(s.last()) } else { m }
    }
}

pub open spec fn at_level(level: int) -> spec_fn(TagView) -> bool {
    |t: TagView| specificity(t) == level
}

/// The tags of `s` with specificity `top` down to `low`, highest first, each
/// level in the order of `s`.
pub open spec fn levels(s: Seq<TagView>, top: int, low: int) -> Seq<TagView>
    decreases top + 1 - low,
{
    if top < low {
        seq![]
    } else {
        levels(s, top, low + 1) + s.filter(at_level(low))
    }
}

/// `s` sorted by descending specificity, ties kept in their order.
pub open spec fn ranked(s: Seq<TagView>) -> Seq<TagView> {
    levels(s, max_specificity(s) as int, 0)
}

/// The available tags that match the requested ones, most specific first.
pub open spec fn filtered(requested: Seq<TagView>, available: Seq<TagView>) -> Seq<TagView> {
    ranked(discovery(requested, available).0)
}

/// `filtered`, with `default` appended when it is given and not already there.
pub open spec fn negotiated(requested: Seq<TagView>, available: Seq<TagView>, default: Option<TagView>) -> Seq<TagView> {
    let found = filtered(requested, available);
    match default {
        Some(d) => if found.contains(d) { found } else { found.push(d) },
        None => found,
    }
}

pub proof fn lemma_ref_views_push(s: Seq<&LanguageTag>, t: &LanguageTag)
    ensures
        ref_views(s.push(t)) == ref_views(s).push(t@),
{
    assert(ref_views(s.push(t)) =~= ref_views(s).push(t@));
}

/// Moves the tags of `pool` that match `req` to the end of `found`, in order,
/// and returns the others, in order.
fn take_matches<'a>(found: &mut Vec<&'a LanguageTag>, pool: Vec<&'a LanguageTag>, req: &LanguageTag, as_range: bool) -> (rest: Vec<&'a LanguageTag>)
    ensures
        ref_views(final(found)@) == ref_views(old(found)@) + ref_views(pool@).filter(matches_req(req@, as_range)),
        ref_views(rest@) == ref_views(pool@).filter(misses_req(req@, as_range)),
{
    let ghost start = ref_views(found@);
    let ghost pv = ref_views(pool@);
    let mut rest: Vec<&'a LanguageTag> = Vec::new();
    let mut i: usize = 0;
    while i < pool.len()
        invariant
            i <= pool@.len(),
            pv == ref_views(pool@),
            ref_views(found@) == start + pv.take(i as int).filter(matches_req(req@, as_range)),
            ref_views(rest@) == pv.take(i as int).filter(misses_req(req@, as_range)),
        decreases pool@.len() - i,
    {
        let t = pool[i];
        proof {
            assert(pv.take(i + 1) =~= pv.take(i as int).push(t@));
            pv.take(i as int).lemma_filter_push(t@, matches_req(req@, as_range));
            pv.take(i as int).lemma_filter_push(t@, misses_req(req@, as_range));
        }
        if t.matches(req, as_range, false) {
            proof {
                lemma_ref_views_push(found@, t);
            }
            found.push(t);
            assert(ref_views(found@) =~= start + pv.take(i + 1).filter(matches_req(req@, as_range)));
        } else {
            proof {
                lemma_ref_views_push(rest@, t);
            }
            rest.push(t);
            assert(ref_views(rest@) =~= pv.take(i + 1).filter(misses_req(req@, as_range)));
        }
        i += 1;
    }
    assert(pv.take(i as int) =~= pv);
    rest
}

/// Sorts by descending specificity, keeping the order of equally specific tags.
fn rank<'a>(found: Vec<&'a LanguageTag>) -> (r: Vec<&'a LanguageTag>)
    ensures
        ref_views(r@) == ranked(ref_views(found@)),
{
    let ghost s = ref_views(found@);
    let mut top: u128 = 0;
    let mut i: usize = 0;
    while i < found.len()
        invariant
            i <= found@.len(),
            s == ref_views(found@),
            top == max_specificity(s.take(i as int)),
        decreases found@.len() - i,
    {
        assert(s.take(i + 1).drop_last() =~= s.take(i as int));
        let sp = found[i].specificity();
        if sp > top {
            top = sp;
        }
        i += 1;
    }
    assert(s.take(i as int) =~= s);
    let mut out: Vec<&'a LanguageTag> = Vec::new();
    let mut level: u128 = top;
    loop
        invariant_except_break
            ref_views(out@) == levels(s, top as int, level + 1),
        invariant
            s == ref_views(found@),
            top == max_specificity(s),
            level <= top,
        ensures
            ref_views(out@) == levels(s, top as int, 0),
        decreases level,
    {
        let mut j: usize = 0;
        let ghost before = ref_views(out@);
        while j < found.len()
            invariant
                j <= found@.len(),
                s == ref_views(found@),
                ref_views(out@) == before + s.take(j as int).filter(at_level(level as int)),
            decreases found@.len() - j,
        {
            let t = found[j];
            proof {
                assert(s.take(j + 1) =~= s.take(j as int).push(t@));
                s.take(j as int).lemma_filter_push(t@, at_level(level as int));
            }
            if t.specificity() == level {
                proof {
                    lemma_ref_views_push(out@, t);
                }
                out.push(t);
                assert(ref_views(out@) =~= before + s.take(j + 1).filter(at_level(level as int)));
            }
            j += 1;
        }
        assert(s.take(j as int) =~= s);
        assert(ref_views(out@) == levels(s, top as int, level as int));
        if level == 0 {
            break;
        }
        level = level - 1;
    }
    out
}

/// The available tags that match the requested ones: for each request in
/// order, its exact matches and then the remaining tags that match it taken
/// as ranges; the whole sorted by descending specificity, ties in order of
/// discovery.
pub fn filter_matches<'a>(requested: &[LanguageTag], available: &'a [LanguageTag]) -> (r: Vec<&'a LanguageTag>)
    ensures
        ref_views(r@) == filtered(views(requested@), views(available@)),
{
    let ghost req = views(requested@);
    let ghost avail = views(available@);
    let mut remaining: Vec<&'a LanguageTag> = Vec::new();
    let mut i: usize = 0;
    while i < available.len()
        invariant
            i <= available@.len(),
            avail == views(available@),
            ref_views(remaining@) == avail.take(i as int),
        decreases available@.len() - i,
    {
        proof {
            lemma_ref_views_push(remaining@, &available[i as int]);
            assert(avail.take(i + 1) =~= avail.take(i as int).push(available@[i as int]@));
        }
        remaining.push(&available[i]);
        assert(ref_views(remaining@) =~= avail.take(i + 1));
        i += 1;
    }
    assert(avail.take(i as int) =~= avail);
    let mut found: Vec<&'a LanguageTag> = Vec::new();
    let mut k: usize = 0;
    assert(discovery(req.take(0), avail) == (Seq::<TagView>::empty(), avail));
    assert(ref_views(found@) =~= Seq::<TagView>::empty());
    while k < requested.len()
        invariant
            k <= requested@.len(),
            req == views(requested@),
            discovery(req.take(k as int), avail) == (ref_views(found@), ref_views(remaining@)),
        decreases requested@.len() - k,
    {
        let r = &requested[k];
        assert(req.take(k + 1).drop_last() =~= req.take(k as int));
        let rest = take_matches(&mut found, remaining, r, false);
        remaining = take_matches(&mut found, rest, r, true);
        k += 1;
    }
    assert(req.take(k as int) =~= req);
    rank(found)
}

/// `filter_matches`, with `default` appended when it is given and not
/// already among the matches.
pub fn negotiate_languages<'a>(requested: &[LanguageTag], available: &'a [LanguageTag], default: Option<&'a LanguageTag>) -> (r: Vec<&'a LanguageTag>)
    ensures
        ref_views(r@) == negotiated(views(requested@), views(available@), match default {
            Some(d) => Some(d@),
            None => None,
        }),
{
    let mut supported = filter_matches(requested, available);
    if let Some(d) = default {
        let ghost sv = ref_views(supported@);
        let mut i: usize = 0;
        let mut present = false;
        while i < supported.len()
            invariant
                i <= supported@.len(),
                sv == ref_views(supported@),
                present == exists|j: int| 0 <= j < i && #[trigger] sv[j] == d@,
            decreases supported@.len() - i,
        {
            let same = supported[i].same_as(d);
            assert(same == (sv[i as int] == d@));
            if same {
                present = true;
            }
            i += 1;
        }
        if !present {
            proof {
                lemma_ref_views_push(supported@, d);
            }
            supported.push(d);
            assert(ref_views(supported@) =~= sv.push(d@));
        } else {
            let ghost j = choose|j: int| 0 <= j < i && #[trigger] sv[j] == d@;
            assert(sv.contains(d@));
        }
    }
    supported
}

proof fn lemma_exact_is_equal(t: TagView, l: TagView)
    requires
        tag_matches(t, l, false, false),
    ensures
        t == l,
{
}

proof fn lemma_range_specificity(t: TagView, l: TagView)
    requires
        tag_matches(t, l, true, false),
    ensures
        specificity(t) <= specificity(l),
{
}

proof fn lemma_max_specificity_bounds(s: Seq<TagView>, b: nat)
    ensures
        forall|i: int| 0 <= i < s.len() ==> specificity(#[trigger] s[i]) <= max_specificity(s),
        (forall|i: int| 0 <= i < s.len() ==> specificity(#[trigger] s[i]) <= b) ==> max_specificity(s) <= b,
    decreases s.len(),
{
    if s.len() > 0 {
        lemma_max_specificity_bounds(s.drop_last(), b);
        assert forall|i: int| 0 <= i < s.len() implies specificity(#[trigger] s[i]) <= max_specificity(s) by {
            if i < s.len() - 1 {
                assert(s.drop_last()[i] == s[i]);
            }
        }
        if forall|i: int| 0 <= i < s.len() ==> specificity(#[trigger] s[i]) <= b {
            assert forall|i: int| 0 <= i < s.drop_last().len() implies specificity(#[trigger] s.drop_last()[i]) <= b by {
                assert(s.drop_last()[i] == s[i]);
            }
            assert(specificity(s[s.len() - 1]) <= b);
        }
    }
}

proof fn lemma_levels_start(s: Seq<TagView>, top: int, low: int)
    requires
        low <= top,
    ensures
        levels(s, top, low).len() >= s.filter(at_level(top)).len(),
        forall|i: int| 0 <= i < s.filter(at_level(top)).len() ==> levels(s, top, low)[i] == s.filter(at_level(top))[i],
    decreases top - low,
{
    if low == top {
        assert(levels(s, top, top + 1) =~= Seq::<TagView>::empty());
        assert(levels(s, top, low) =~= s.filter(at_level(top)));
    } else {
        lemma_levels_start(s, top, low + 1);
    }
}

/// A language negotiated alone against a list that holds it comes first in
/// its own result.
pub proof fn lemma_self_first(locales: Seq<TagView>, l: TagView)
    requires
        locales.contains(l),
    ensures
        filtered(seq![l], locales).len() > 0,
        filtered(seq![l], locales)[0] == l,
{
    let req = seq![l];
    assert(req.drop_last() =~= Seq::<TagView>::empty());
    assert(req.last() == l);
    let exact = locales.filter(matches_req(l, false));
    let rest1 = locales.filter(misses_req(l, false));
    let ranged = rest1.filter(matches_req(l, true));
    let found = discovery(req, locales).0;
    assert(discovery(req.drop_last(), locales) == (Seq::<TagView>::empty(), locales));
    assert(found =~= exact + ranged);
    let i = choose|i: int| 0 <= i < locales.len() && locales[i] == l;
    assert(tag_matches(l, l, false, false));
    assert(matches_req(l, false)(l));
    locales.lemma_filter_contains(matches_req(l, false), i);
    assert(exact.contains(l));
    assert(exact.len() > 0);
    assert(forall|j: int| 0 <= j < exact.len() ==> matches_req(l, false)(#[trigger] exact[j])) by {
        assert forall|j: int| 0 <= j < exact.len() implies matches_req(l, false)(#[trigger] exact[j]) by {
            locales.lemma_filter_pred(matches_req(l, false), j);
        }
    }
    locales.lemma_filter_pred(matches_req(l, false), 0);
    lemma_exact_is_equal(exact[0], l);
    assert(found[0] == l);
    assert forall|j: int| 0 <= j < found.len() implies specificity(#[trigger] found[j]) <= specificity(l) by {
        if j < exact.len() {
            locales.lemma_filter_pred(matches_req(l, false), j);
            lemma_exact_is_equal(exact[j], l);
        } else {
            rest1.lemma_filter_pred(matches_req(l, true), j - exact.len());
            lemma_range_specificity(found[j], l);
        }
    }
    lemma_max_specificity_bounds(found, specificity(l));
    let top = max_specificity(found) as int;
    assert(top == specificity(l) as int);
    let p = at_level(top);
    assert(found =~= seq![found[0]] + found.drop_first());
    found.drop_first().lemma_filter_prepend(found[0], p);
    assert(found.filter(p)[0] == l);
    lemma_levels_start(found, top, 0);
}


/// A default that is already among the matches is not appended a second time.
pub proof fn lemma_default_not_repeated(requested: Seq<TagView>, available: Seq<TagView>, default: TagView)
    requires
        filtered(requested, available).contains(default),
    ensures
        negotiated(requested, available, Some(default)) == filtered(requested, available),
{
}

/// A default that is not among the matches is appended once, at the end.
pub proof fn lemma_default_appended(requested: Seq<TagView>, available: Seq<TagView>, default: TagView)
    requires
        !filtered(requested, available).contains(default),
    ensures
        negotiated(requested, available, Some(default)) == filtered(requested, available).push(default),
{
}

proof fn lemma_filter_none(s: Seq<TagView>, p: spec_fn(TagView) -> bool)
    requires
        forall|i: int| 0 <= i < s.len() ==> !p(#[trigger] s[i]),
    ensures
        s.filter(p) == Seq::<TagView>::empty(),
{
    if s.filter(p).len() > 0 {
        let x = s.filter(p)[0];
        s.lemma_filter_pred(p, 0);
        assert(s.filter(p).contains(x));
        s.lemma_filter_contains_rev(p, x);
        let i = choose|i: int| 0 <= i < s.len() && s[i] == x;
        assert(!p(s[i]));
    }
    assert(s.filter(p) =~= Seq::<TagView>::empty());
}

/// A language that no available tag matches, even as a range, is matched by
/// nothing.
pub proof fn lemma_unmatched_filters_nothing(available: Seq<TagView>, l: TagView)
    requires
        forall|i: int| 0 <= i < available.len() ==> !tag_matches(#[trigger] available[i], l, true, false),
    ensures
        filtered(seq![l], available) == Seq::<TagView>::empty(),
{
    let req = seq![l];
    assert(req.drop_last() =~= Seq::<TagView>::empty());
    assert(req.last() == l);
    assert(discovery(req.drop_last(), available) == (Seq::<TagView>::empty(), available));
    assert forall|i: int| 0 <= i < available.len() implies !matches_req(l, false)(#[trigger] available[i]) by {
        assert(!tag_matches(available[i], l, true, false));
    }
    lemma_filter_none(available, matches_req(l, false));
    let rest1 = available.filter(misses_req(l, false));
    assert forall|i: int| 0 <= i < rest1.len() implies !matches_req(l, true)(#[trigger] rest1[i]) by {
        assert(rest1.contains(rest1[i]));
        available.lemma_filter_contains_rev(misses_req(l, false), rest1[i]);
        let j = choose|j: int| 0 <= j < available.len() && available[j] == rest1[i];
        assert(!tag_matches(available[j], l, true, false));
    }
    lemma_filter_none(rest1, matches_req(l, true));
    let found = discovery(req, available).0;
    assert(found =~= Seq::<TagView>::empty());
    assert(max_specificity(found) == 0);
    assert(levels(found, 0, 1) =~= Seq::<TagView>::empty());
    assert(found.filter(at_level(0)) =~= Seq::<TagView>::empty());
    assert(levels(found, 0, 0) =~= Seq::<TagView>::empty());
}

} // verus!
