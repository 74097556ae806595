//! Per-language catalogs of Fluent messages and the calls into fluent_bundle
//! that build and query them.
use crate::error::{FluentSyntaxError, LoaderError};
use crate::languages::{LanguageTag, TagView};
use crate::scan::{has_long_fraction, long_fraction};
use fluent_bundle::bundle::FluentBundle;
use fluent_bundle::{FluentResource, FluentValue};
use intl_memoizer::concurrent::IntlLangMemoizer;
use std::sync::Arc;
use vstd::prelude::*;

verus! {

#[verifier::external_type_specification]
#[verifier::external_body]
#[verifier::reject_recursive_types(R)]
#[verifier::reject_recursive_types(M)]
pub struct ExFluentBundle<R, M>(FluentBundle<R, M>);

#[verifier::external_type_specification]
#[verifier::external_body]
pub struct ExFluentResource(FluentResource);

#[verifier::external_type_specification]
#[verifier::external_body]
pub struct ExFluentError(fluent_bundle::FluentError);

#[verifier::external_type_specification]
#[verifier::external_body]
pub struct ExIntlLangMemoizer(IntlLangMemoizer);

/// The bundle that holds one language's messages.
pub type Bundle = FluentBundle<Arc<FluentResource>, IntlLangMemoizer>;

#[verifier::external_type_specification]
#[verifier::external_body]
pub struct ExParserError(fluent_syntax::parser::ParserError);

/// The messages of a bundle: each message id with the parts of it that can be
/// formatted (`None` for its value, `Some(a)` for its attribute `a`).
pub uninterp spec fn bundle_messages(b: Bundle) -> Map<Seq<char>, Set<Option<Seq<char>>>>;

/// The text that formatting a part of a message of a bundle with the given
/// arguments yields, or `None` when formatting reports errors. Bundles here
/// hold no functions, transforms or formatters of a caller's, and arguments
/// are texts and integers, so the result depends on these values alone.
pub uninterp spec fn formatted(b: Bundle, message: Seq<char>, part: Option<Seq<char>>, args: Seq<(Seq<char>, ArgView)>) -> Option<Seq<char>>;

/// Every number literal of the resource has at most 19 digits after its point.
pub uninterp spec fn resource_fractions_bounded(r: FluentResource) -> bool;

/// Every number literal of every resource the bundle holds has at most 19
/// digits after its point.
pub uninterp spec fn bundle_fractions_bounded(b: Bundle) -> bool;

/// The number literals of a shared resource have short enough fractions.
pub open spec fn fractions_ok(r: Arc<FluentResource>) -> bool {
    resource_fractions_bounded(*r)
}

/// Every resource of `resources` has short enough fractions.
pub open spec fn all_fractions_ok(resources: Seq<Arc<FluentResource>>) -> bool {
    forall|i: int| 0 <= i < resources.len() ==> fractions_ok(#[trigger] resources[i])
}

/// The messages a resource defines: each message id with the parts of it that
/// can be formatted, in the same form as `bundle_messages`.
pub uninterp spec fn resource_messages(r: FluentResource) -> Map<Seq<char>, Set<Option<Seq<char>>>>;

/// The messages of `start` with those of `resources` added one after the other.
pub open spec fn merged_onto(start: Map<Seq<char>, Set<Option<Seq<char>>>>, resources: Seq<Arc<FluentResource>>) -> Map<Seq<char>, Set<Option<Seq<char>>>>
    decreases resources.len(),
{
    if resources.len() == 0 {
        start
    } else {
        merged_onto(start, resources.drop_last()).union_prefer_right(resource_messages(*resources.last()))
    }
}

proof fn lemma_merged_onto_append(start: Map<Seq<char>, Set<Option<Seq<char>>>>, first: Seq<Arc<FluentResource>>, second: Seq<Arc<FluentResource>>)
    ensures
        merged_onto(merged_onto(start, first), second) == merged_onto(start, first + second),
    decreases second.len(),
{
    if second.len() > 0 {
        lemma_merged_onto_append(start, first, second.drop_last());
        assert((first + second).drop_last() =~= first + second.drop_last());
    } else {
        assert(first + second =~= first);
    }
}

/// The ids a bundle's entries are keyed by: those of its messages, terms and
/// functions.
pub uninterp spec fn bundle_ids(b: Bundle) -> Set<Seq<char>>;

/// The ids of a resource's messages and terms, in the order they appear.
pub uninterp spec fn resource_ids(r: FluentResource) -> Seq<Seq<char>>;

/// The ids of the messages and terms of a parsed Fluent text, in order.
pub uninterp spec fn source_ids(source: Seq<char>) -> Seq<Seq<char>>;

/// The messages of a parsed Fluent text, in the same form as `bundle_messages`.
pub uninterp spec fn source_messages(source: Seq<char>) -> Map<Seq<char>, Set<Option<Seq<char>>>>;

/// The ids of a shared resource.
pub open spec fn ids_of(r: Arc<FluentResource>) -> Seq<Seq<char>> {
    resource_ids(*r)
}

/// The ids of `resources`, one resource after the other.
pub open spec fn all_ids(resources: Seq<Arc<FluentResource>>) -> Seq<Seq<char>>
    decreases resources.len(),
{
    if resources.len() == 0 {
        Seq::empty()
    } else {
        all_ids(resources.drop_last()) + resource_ids(*resources.last())
    }
}

/// `ids` can be added to a bundle whose ids are `taken`: none repeats and
/// none is taken.
pub open spec fn fits(taken: Set<Seq<char>>, ids: Seq<Seq<char>>) -> bool {
    &&& ids.no_duplicates()
    &&& forall|k: Seq<char>| ids.contains(k) ==> !taken.contains(k)
}

proof fn lemma_all_ids_append(a: Seq<Arc<FluentResource>>, b: Seq<Arc<FluentResource>>)
    ensures
        all_ids(a + b) == all_ids(a) + all_ids(b),
    decreases b.len(),
{
    if b.len() == 0 {
        assert(a + b =~= a);
        assert(all_ids(a) + all_ids(b) =~= all_ids(a));
    } else {
        lemma_all_ids_append(a, b.drop_last());
        assert((a + b).drop_last() =~= a + b.drop_last());
        assert((a + b).last() == b.last());
        assert(all_ids(a) + all_ids(b) =~= all_ids(a) + all_ids(b.drop_last()) + resource_ids(*b.last()));
    }
}

proof fn lemma_to_set_concat(x: Seq<Seq<char>>, y: Seq<Seq<char>>)
    ensures
        (x + y).to_set() == x.to_set() + y.to_set(),
{
    assert forall|k: Seq<char>| (x + y).contains(k) <==> x.contains(k) || y.contains(k) by {
        if (x + y).contains(k) {
            let i = choose|i: int| 0 <= i < (x + y).len() && (x + y)[i] == k;
            if i >= x.len() {
                assert(y[i - x.len()] == k);
            }
        }
        if x.contains(k) {
            let i = choose|i: int| 0 <= i < x.len() && x[i] == k;
            assert((x + y)[i] == k);
        }
        if y.contains(k) {
            let j = choose|j: int| 0 <= j < y.len() && y[j] == k;
            assert((x + y)[x.len() + j] == k);
        }
    }
    assert((x + y).to_set() =~= x.to_set() + y.to_set());
}

proof fn lemma_fits_concat(taken: Set<Seq<char>>, x: Seq<Seq<char>>, y: Seq<Seq<char>>)
    ensures
        fits(taken, x + y) <==> fits(taken, x) && fits(taken + x.to_set(), y),
{
    let z = x + y;
    if fits(taken, z) {
        assert forall|i: int, j: int| 0 <= i < x.len() && 0 <= j < x.len() && i != j implies x[i] != x[j] by {
            assert(z[i] == x[i] && z[j] == x[j]);
        }
        assert forall|k: Seq<char>| x.contains(k) implies !taken.contains(k) by {
            let i = choose|i: int| 0 <= i < x.len() && x[i] == k;
            assert(z[i] == k);
        }
        assert forall|i: int, j: int| 0 <= i < y.len() && 0 <= j < y.len() && i != j implies y[i] != y[j] by {
            assert(z[x.len() + i] == y[i] && z[x.len() + j] == y[j]);
        }
        assert forall|k: Seq<char>| y.contains(k) implies !(taken + x.to_set()).contains(k) by {
            let j = choose|j: int| 0 <= j < y.len() && y[j] == k;
            assert(z[x.len() + j] == k);
            if x.contains(k) {
                let i = choose|i: int| 0 <= i < x.len() && x[i] == k;
                assert(z[i] == k);
            }
        }
    }
    if fits(taken, x) && fits(taken + x.to_set(), y) {
        assert forall|i: int, j: int| 0 <= i < z.len() && 0 <= j < z.len() && i != j implies z[i] != z[j] by {
            if i < x.len() && j >= x.len() {
                assert(z[i] == x[i]);
                assert(x.contains(z[i]));
                assert((taken + x.to_set()).contains(z[i]));
                assert(y[j - x.len()] == z[j]);
                assert(y.contains(z[j]));
            } else if j < x.len() && i >= x.len() {
                assert(z[j] == x[j]);
                assert(x.contains(z[j]));
                assert((taken + x.to_set()).contains(z[j]));
                assert(y[i - x.len()] == z[i]);
                assert(y.contains(z[i]));
            } else if i >= x.len() {
                assert(y[i - x.len()] == z[i] && y[j - x.len()] == z[j]);
            } else {
                assert(z[i] == x[i] && z[j] == x[j]);
            }
        }
        assert forall|k: Seq<char>| z.contains(k) implies !taken.contains(k) by {
            let i = choose|i: int| 0 <= i < z.len() && z[i] == k;
            if i < x.len() {
                assert(x.contains(k));
            } else {
                assert(y[i - x.len()] == k);
                assert(y.contains(k));
            }
        }
    }
}

/// The messages of a shared resource.
pub open spec fn messages_of(r: Arc<FluentResource>) -> Map<Seq<char>, Set<Option<Seq<char>>>> {
    resource_messages(*r)
}

/// `resources` are the parsed `texts`, one for one.
pub open spec fn parsed_from(resources: Seq<Arc<FluentResource>>, texts: Seq<Seq<char>>) -> bool {
    &&& resources.len() == texts.len()
    &&& forall|i: int| 0 <= i < texts.len() ==> ids_of(#[trigger] resources[i]) == source_ids(texts[i])
        && messages_of(resources[i]) == source_messages(texts[i])
}

/// The ids of the parsed `texts`, one text after the other.
pub open spec fn text_ids(texts: Seq<Seq<char>>) -> Seq<Seq<char>>
    decreases texts.len(),
{
    if texts.len() == 0 {
        Seq::empty()
    } else {
        text_ids(texts.drop_last()) + source_ids(texts.last())
    }
}

/// The messages of the parsed `texts` added one after the other to an empty
/// bundle.
pub open spec fn text_messages(texts: Seq<Seq<char>>) -> Map<Seq<char>, Set<Option<Seq<char>>>>
    decreases texts.len(),
{
    if texts.len() == 0 {
        Map::empty()
    } else {
        text_messages(texts.drop_last()).union_prefer_right(source_messages(texts.last()))
    }
}

pub proof fn lemma_parsed_from_concat(a: Seq<Arc<FluentResource>>, ta: Seq<Seq<char>>, b: Seq<Arc<FluentResource>>, tb: Seq<Seq<char>>)
    requires
        parsed_from(a, ta),
        parsed_from(b, tb),
    ensures
        parsed_from(a + b, ta + tb),
{
    assert forall|i: int| 0 <= i < (ta + tb).len() implies ids_of(#[trigger] (a + b)[i]) == source_ids((ta + tb)[i])
        && messages_of((a + b)[i]) == source_messages((ta + tb)[i]) by {
        if i < a.len() {
            assert((a + b)[i] == a[i] && (ta + tb)[i] == ta[i]);
        } else {
            assert((a + b)[i] == b[i - a.len()] && (ta + tb)[i] == tb[i - a.len()]);
        }
    }
}

pub proof fn lemma_parsed_from_contents(resources: Seq<Arc<FluentResource>>, texts: Seq<Seq<char>>)
    requires
        parsed_from(resources, texts),
    ensures
        all_ids(resources) == text_ids(texts),
        merged_onto(Map::empty(), resources) == text_messages(texts),
    decreases texts.len(),
{
    if texts.len() > 0 {
        let r = resources.drop_last();
        let t = texts.drop_last();
        assert forall|i: int| 0 <= i < t.len() implies ids_of(#[trigger] r[i]) == source_ids(t[i])
            && messages_of(r[i]) == source_messages(t[i]) by {
            assert(r[i] == resources[i] && t[i] == texts[i]);
        }
        lemma_parsed_from_contents(r, t);
        assert(ids_of(resources[resources.len() - 1]) == source_ids(texts[texts.len() - 1]));
        assert(messages_of(resources[resources.len() - 1]) == source_messages(texts[texts.len() - 1]));
    }
}

/// Whether a text is Fluent syntax without errors.
pub uninterp spec fn well_formed_ftl(source: Seq<char>) -> bool;

/// Whether a text can be made a resource here: it is Fluent syntax without
/// errors, and no `.` in it is followed by twenty digits (so no number
/// literal has a fraction too long to format).
pub open spec fn usable_ftl(source: Seq<char>) -> bool {
    well_formed_ftl(source) && !long_fraction(source)
}

/// The value of a named argument: a text or an integer.
pub enum ArgValue {
    Text(String),
    Integer(i64),
}

/// The value of a named argument, as the contracts see it.
pub enum ArgView {
    Text(Seq<char>),
    Integer(i64),
}

impl View for ArgValue {
    type V = ArgView;

    open spec fn view(&self) -> ArgView {
        match self {
            ArgValue::Text(s) => ArgView::Text(s@),
            ArgValue::Integer(n) => ArgView::Integer(*n),
        }
    }
}

/// Named arguments handed to formatting.
pub type Args = Vec<(String, ArgValue)>;

pub open spec fn args_view(args: Option<&Args>) -> Seq<(Seq<char>, ArgView)> {
    match args {
        Some(a) => a@.map_values(|p: (String, ArgValue)| (p.0@, p.1@)),
        None => Seq::empty(),
    }
}

/// Whether `message` has the part `part` in `m`.
pub open spec fn has_part(m: Map<Seq<char>, Set<Option<Seq<char>>>>, message: Seq<char>, part: Option<Seq<char>>) -> bool {
    m.contains_key(message) && m[message].contains(part)
}

/// What formatting a part of a message gave.
pub enum Rendering {
    /// The message, or the part of it, does not exist.
    Missing,
    /// The formatted text.
    Text(String),
    /// Formatting reported errors.
    Failed(Vec<fluent_bundle::FluentError>),
}

/// Relies on `FluentBundle::new_concurrent` (fluent_bundle): a new bundle
/// holds no messages.
#[verifier::external_body]
fn new_bundle(lang: &LanguageTag) -> (r: Bundle)
    ensures
        bundle_messages(r).dom() == Set::<Seq<char>>::empty(),
        bundle_ids(r) == Set::<Seq<char>>::empty(),
        bundle_fractions_bounded(r),
{
    FluentBundle::new_concurrent(vec![lang.identifier().clone()])
}

/// Relies on `FluentBundle::add_resource` (fluent_bundle), handed a shared
/// handle to the resource: it keys each message and term of the resource by
/// its id, inserts those whose id is free and reports an error for each id
/// already taken (by the bundle or earlier in the resource). So it succeeds
/// exactly when no id repeats or is taken, with one error per clash, and
/// the bundle then holds its old messages and the resource's. The bundle
/// keeps the resource either way.
#[verifier::external_body]
fn add_resource(b: &mut Bundle, r: &Arc<FluentResource>) -> (res: Result<(), Vec<fluent_bundle::FluentError>>)
    ensures
        res matches Err(e) ==> e@.len() > 0,
        bundle_fractions_bounded(*old(b)) && resource_fractions_bounded(**r) ==> bundle_fractions_bounded(*final(b)),
        res is Ok <==> fits(bundle_ids(*old(b)), resource_ids(**r)),
        bundle_ids(*final(b)) == bundle_ids(*old(b)) + resource_ids(**r).to_set(),
        res is Ok ==> bundle_messages(*old(b)).dom().disjoint(resource_messages(**r).dom()),
        res is Ok ==> bundle_messages(*final(b)) == bundle_messages(*old(b)).union_prefer_right(resource_messages(**r)),
{
    b.add_resource(Arc::clone(r))
}

/// Relies on `FluentBundle::has_message` (fluent_bundle).
#[verifier::external_body]
fn has_message(b: &Bundle, id: &str) -> (r: bool)
    ensures
        r == bundle_messages(*b).contains_key(id@),
{
    b.has_message(id)
}

/// Relies on `FluentBundle::get_message`, `FluentMessage::value`,
/// `FluentMessage::get_attribute` and `FluentBundle::format_pattern`
/// (fluent_bundle): the part is found when the message has it, and
/// formatting succeeds when it reports no error. Formatting overflows (and
/// panics where overflow is checked) when a number it selects on has more
/// than 19 fraction digits; integer arguments have none, so bounded literals
/// are enough.
#[verifier::external_body]
fn render(b: &Bundle, message: &str, part: Option<&str>, args: &Args) -> (r: Rendering)
    requires
        bundle_fractions_bounded(*b),
    ensures
        r is Missing <==> !has_part(bundle_messages(*b), message@, match part { Some(p) => Some(p@), None => None }),
        r is Text ==> formatted(*b, message@, match part { Some(p) => Some(p@), None => None }, args_view(Some(args))) == Some(r->Text_0@),
        r is Failed ==> formatted(*b, message@, match part { Some(p) => Some(p@), None => None }, args_view(Some(args))) is None,
{
    let args: fluent_bundle::FluentArgs = args.iter().map(|(k, v)| (k.as_str(), match v {
        ArgValue::Text(t) => FluentValue::from(t.as_str()),
        ArgValue::Integer(n) => FluentValue::from(*n),
    })).collect();
    let pattern = b.get_message(message).and_then(|m| match part {
        Some(a) => m.get_attribute(a).map(|x| x.value()),
        None => m.value(),
    });
    let Some(pattern) = pattern else { return Rendering::Missing };
    let mut errors = Vec::new();
    let text = b.format_pattern(pattern, Some(&args), &mut errors);
    if errors.is_empty() { Rendering::Text(text.into_owned()) } else { Rendering::Failed(errors) }
}

/// Relies on `FluentResource::try_new` (fluent_bundle): it parses a Fluent
/// source and reports its syntax errors; the resource holds the entries of
/// that text, so its ids and messages are those of the text, and each number
/// literal is a piece of the text (`-`, digits, and `.` with digits).
#[verifier::external_body]
fn parse_resource(source: &str) -> (r: Result<FluentResource, Vec<fluent_syntax::parser::ParserError>>)
    ensures
        r is Ok <==> well_formed_ftl(source@),
        r matches Ok(res) ==> resource_ids(res) == source_ids(source@),
        r matches Ok(res) ==> resource_messages(res) == source_messages(source@),
        r matches Ok(res) ==> (!long_fraction(source@) ==> resource_fractions_bounded(res)),
{
    FluentResource::try_new(source.to_owned()).map_err(|(_, errors)| errors)
}

/// The messages of one language.
pub struct Catalog {
    language: LanguageTag,
    bundle: Bundle,
}

/// Relies on `FluentBundle::set_use_isolating` (fluent_bundle): it sets a
/// flag and leaves the bundle's entries and resources as they were.
#[verifier::external_body]
fn set_use_isolating(b: &mut Bundle, value: bool)
    ensures
        bundle_messages(*final(b)) == bundle_messages(*old(b)),
        bundle_ids(*final(b)) == bundle_ids(*old(b)),
        bundle_fractions_bounded(*final(b)) == bundle_fractions_bounded(*old(b)),
{
    b.set_use_isolating(value)
}

impl View for Catalog {
    type V = (TagView, Bundle);

    closed spec fn view(&self) -> (TagView, Bundle) {
        (self.language@, self.bundle)
    }
}

impl Catalog {
    #[verifier::type_invariant]
    closed spec fn inv(&self) -> bool {
        bundle_fractions_bounded(self.bundle)
    }

    /// The language of the catalog.
    pub fn language(&self) -> (r: &LanguageTag)
        ensures
            r@ == self@.0,
    {
        &self.language
    }

    /// Whether the catalog has a message with this id.
    pub fn has_message(&self, id: &str) -> (r: bool)
        ensures
            r == bundle_messages(self@.1).contains_key(id@),
    {
        has_message(&self.bundle, id)
    }

    /// Formats the value (`part` is `None`) or an attribute of a message.
    pub fn render(&self, message: &str, part: Option<&str>, args: Option<&Args>) -> (r: Rendering)
        ensures
            r is Missing <==> !has_part(bundle_messages(self@.1), message@, match part { Some(p) => Some(p@), None => None }),
            r is Text ==> formatted(self@.1, message@, match part { Some(p) => Some(p@), None => None }, args_view(args)) == Some(r->Text_0@),
            r is Failed ==> formatted(self@.1, message@, match part { Some(p) => Some(p@), None => None }, args_view(args)) is None,
    {
        proof {
            use_type_invariant(self);
        }
        let no_args: Args = Vec::new();
        let given = match args {
            Some(a) => a,
            None => &no_args,
        };
        assert(args_view(Some(given)) =~= args_view(args));
        render(&self.bundle, message, part, given)
    }
}

fn add_all(b: &mut Bundle, resources: &[Arc<FluentResource>]) -> (r: Result<(), LoaderError>)
    requires
        bundle_fractions_bounded(*old(b)),
        all_fractions_ok(resources@),
    ensures
        r is Err ==> r->Err_0 is FluentBundle,
        r matches Err(LoaderError::FluentBundle { errors }) ==> errors@.len() > 0,
        bundle_fractions_bounded(*final(b)),
        r is Ok <==> fits(bundle_ids(*old(b)), all_ids(resources@)),
        r is Ok ==> bundle_ids(*final(b)) == bundle_ids(*old(b)) + all_ids(resources@).to_set(),
        r is Ok ==> bundle_messages(*final(b)) == merged_onto(bundle_messages(*old(b)), resources@),
{
    let ghost start = bundle_messages(*b);
    let ghost taken = bundle_ids(*old(b));
    let mut i: usize = 0;
    assert(resources@.take(0) =~= Seq::<Arc<FluentResource>>::empty());
    assert(taken + all_ids(resources@.take(0)).to_set() =~= taken);
    while i < resources.len()
        invariant
            i <= resources@.len(),
            bundle_messages(*b) == merged_onto(start, resources@.take(i as int)),
            bundle_ids(*b) == taken + all_ids(resources@.take(i as int)).to_set(),
            fits(taken, all_ids(resources@.take(i as int))),
            taken == bundle_ids(*old(b)),
            bundle_fractions_bounded(*b),
            all_fractions_ok(resources@),
        decreases resources@.len() - i,
    {
        let ghost before = all_ids(resources@.take(i as int));
        let ghost ids = ids_of(resources@[i as int]);
        assert(resources@.take(i + 1).drop_last() =~= resources@.take(i as int));
        assert(all_ids(resources@.take(i + 1)) == before + ids);
        proof {
            lemma_fits_concat(taken, before, ids);
        }
        assert(fractions_ok(resources@[i as int]));
        let added = add_resource(b, &resources[i]);
        proof {
            lemma_to_set_concat(before, ids);
            assert(taken + all_ids(resources@.take(i + 1)).to_set() =~= taken + before.to_set() + ids.to_set());
        }
        if let Err(errors) = added {
            proof {
                assert(!fits(taken + before.to_set(), ids));
                assert(!fits(taken, all_ids(resources@.take(i + 1))));
                assert(resources@ =~= resources@.take(i + 1) + resources@.skip(i + 1));
                lemma_all_ids_append(resources@.take(i + 1), resources@.skip(i + 1));
                lemma_fits_concat(taken, all_ids(resources@.take(i + 1)), all_ids(resources@.skip(i + 1)));
                assert(!fits(taken, all_ids(resources@)));
            }
            return Err(LoaderError::FluentBundle { errors });
        }
        i += 1;
    }
    assert(resources@.take(i as int) =~= resources@);
    Ok(())
}

/// Builds the catalog of `lang`: `shared` resources first, then `resources`,
/// then the isolation setting. It succeeds exactly when no message or term
/// id is defined twice across those resources, and the catalog then holds
/// their messages.
pub fn create_bundle(lang: LanguageTag, resources: &[Arc<FluentResource>], shared: &[Arc<FluentResource>], use_isolating: bool) -> (r: Result<Catalog, LoaderError>)
    requires
        all_fractions_ok(shared@),
        all_fractions_ok(resources@),
    ensures
        r is Ok <==> all_ids(shared@ + resources@).no_duplicates(),
        r is Ok ==> r->Ok_0@.0 == lang@,
        r is Ok ==> bundle_messages(r->Ok_0@.1) == merged_onto(Map::empty(), shared@ + resources@),
        r is Err ==> r->Err_0 is FluentBundle,
        r matches Err(LoaderError::FluentBundle { errors }) ==> errors@.len() > 0,
{
    let mut bundle = new_bundle(&lang);
    assert(bundle_messages(bundle) =~= Map::empty());
    proof {
        lemma_all_ids_append(shared@, resources@);
        lemma_fits_concat(Set::empty(), all_ids(shared@), all_ids(resources@));
        assert(Set::<Seq<char>>::empty() + all_ids(shared@).to_set() =~= all_ids(shared@).to_set());
        assert(fits(Set::empty(), all_ids(shared@ + resources@)) == all_ids(shared@ + resources@).no_duplicates());
    }
    add_all(&mut bundle, shared)?;
    add_all(&mut bundle, resources)?;
    proof {
        lemma_merged_onto_append(Map::empty(), shared@, resources@);
    }
    set_use_isolating(&mut bundle, use_isolating);
    Ok(Catalog { language: lang, bundle })
}

/// Builds one catalog per language, in order, each from its resources and
/// the shared `core_resources`, with the same isolation setting. It succeeds
/// exactly when no language's resources, with the core ones, define an id
/// twice.
pub fn build_bundles(resources: &[(LanguageTag, Vec<Arc<FluentResource>>)], core_resources: &[Arc<FluentResource>], use_isolating: bool) -> (r: Result<Vec<Catalog>, LoaderError>)
    requires
        all_fractions_ok(core_resources@),
        forall|i: int| 0 <= i < resources@.len() ==> all_fractions_ok((#[trigger] resources@[i]).1@),
    ensures
        r is Ok <==> forall|i: int| 0 <= i < resources@.len() ==> all_ids(core_resources@ + (#[trigger] resources@[i]).1@).no_duplicates(),
        r matches Ok(cats) ==> cats@.len() == resources@.len()
            && forall|i: int| 0 <= i < resources@.len() ==> (#[trigger] cats@[i])@.0 == resources@[i].0@,
        r matches Ok(cats) ==> forall|i: int| 0 <= i < resources@.len()
            ==> bundle_messages((#[trigger] cats@[i])@.1) == merged_onto(Map::empty(), core_resources@ + resources@[i].1@),
        r is Err ==> r->Err_0 is FluentBundle,
        r matches Err(LoaderError::FluentBundle { errors }) ==> errors@.len() > 0,
{
    let mut bundles: Vec<Catalog> = Vec::new();
    let mut k: usize = 0;
    while k < resources.len()
        invariant
            k <= resources@.len(),
            bundles@.len() == k,
            all_fractions_ok(core_resources@),
            forall|i: int| 0 <= i < resources@.len() ==> all_fractions_ok((#[trigger] resources@[i]).1@),
            forall|j: int| 0 <= j < k ==> all_ids(core_resources@ + (#[trigger] resources@[j]).1@).no_duplicates(),
            forall|j: int| 0 <= j < k ==> (#[trigger] bundles@[j])@.0 == resources@[j].0@,
            forall|j: int| 0 <= j < k
                ==> bundle_messages((#[trigger] bundles@[j])@.1) == merged_onto(Map::empty(), core_resources@ + resources@[j].1@),
        decreases resources@.len() - k,
    {
        assert(all_fractions_ok(resources@[k as int].1@));
        let catalog = create_bundle(resources[k].0.clone(), resources[k].1.as_slice(), core_resources, use_isolating)?;
        bundles.push(catalog);
        k += 1;
    }
    Ok(bundles)
}

/// Parses one Fluent source. A source in which a `.` is followed by twenty
/// digits is refused, since formatting a number literal with that long a
/// fraction overflows.
pub fn resource_from_str(source: &str) -> (r: Result<FluentResource, LoaderError>)
    ensures
        r is Ok <==> usable_ftl(source@),
        r matches Ok(res) ==> resource_ids(res) == source_ids(source@),
        r matches Ok(res) ==> resource_messages(res) == source_messages(source@),
        r matches Ok(res) ==> resource_fractions_bounded(res),
        r matches Err(e) ==> (e is Fluent <==> !well_formed_ftl(source@)),
        r matches Err(e) ==> (e is LongFraction <==> well_formed_ftl(source@) && long_fraction(source@)),
{
    match parse_resource(source) {
        Ok(res) => {
            if has_long_fraction(source) {
                Err(LoaderError::LongFraction)
            } else {
                Ok(res)
            }
        },
        Err(errors) => Err(LoaderError::Fluent { source: FluentSyntaxError::new(errors) }),
    }
}

/// Parses each Fluent source, in order; fails on the first that does not parse.
pub fn resources_from_vec(sources: &[String]) -> (r: Result<Vec<FluentResource>, LoaderError>)
    ensures
        r is Ok <==> forall|i: int| 0 <= i < sources@.len() ==> usable_ftl(#[trigger] sources@[i]@),
        r is Ok ==> r->Ok_0@.len() == sources@.len(),
        r matches Ok(v) ==> forall|i: int| 0 <= i < v@.len() ==> resource_ids(#[trigger] v@[i]) == source_ids(sources@[i]@)
            && resource_messages(v@[i]) == source_messages(sources@[i]@) && resource_fractions_bounded(v@[i]),
        r is Err ==> r->Err_0 is Fluent || r->Err_0 is LongFraction,
{
    let mut out: Vec<FluentResource> = Vec::new();
    let mut i: usize = 0;
    while i < sources.len()
        invariant
            i <= sources@.len(),
            out@.len() == i,
            forall|j: int| 0 <= j < i ==> usable_ftl(#[trigger] sources@[j]@),
            forall|j: int| 0 <= j < i ==> resource_ids(#[trigger] out@[j]) == source_ids(sources@[j]@)
                && resource_messages(out@[j]) == source_messages(sources@[j]@) && resource_fractions_bounded(out@[j]),
        decreases sources@.len() - i,
    {
        match resource_from_str(sources[i].as_str()) {
            Ok(res) => out.push(res),
            Err(e) => return Err(e),
        }
        i += 1;
    }
    Ok(out)
}

} // verus!
