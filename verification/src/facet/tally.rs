//! Counting values: which occur how often, most frequent first.
use crate::facet::FacetValueType;
use crate::sort::{self, same_items, sort, sorted, Ordered};
use crate::text;
use crate::text::order::{self, str_before};
use crate::text::same;
use std::collections::VecDeque;
use vstd::prelude::*;

verus! {

/// One occurrence of a value, and the type that it had.
#[derive(Debug)]
pub struct Sample {
    pub value: String,
    pub kind: Option<FacetValueType>,
}

/// What a sample is.
pub struct SampleView {
    pub value: Seq<char>,
    pub kind: Option<FacetValueType>,
}

impl View for Sample {
    type V = SampleView;

    open spec fn view(&self) -> SampleView {
        SampleView { value: self.value@, kind: self.kind }
    }
}

/// The types that a value had.
#[derive(Debug, Clone, Copy, PartialEq, Eq, Structural)]
pub struct Kinds {
    pub string: bool,
    pub number: bool,
    pub boolean: bool,
    pub null: bool,
    pub text: bool,
}

/// A value with its count and its types.
#[derive(Debug)]
pub struct Run {
    pub value: String,
    pub count: usize,
    pub kinds: Kinds,
}

/// What a counted value is.
pub struct RunView {
    pub value: Seq<char>,
    pub count: int,
    pub kinds: Kinds,
}

impl View for Run {
    type V = RunView;

    open spec fn view(&self) -> RunView {
        RunView { value: self.value@, count: self.count as int, kinds: self.kinds }
    }
}

// ---------------------------------------------------------------------------
// Orders
// ---------------------------------------------------------------------------

/// Whether a text comes before another or is the same.
pub open spec fn text_le(a: Seq<char>, b: Seq<char>) -> bool {
    a == b || order::before(a, b)
}

pub proof fn lemma_text_le(a: Seq<char>, b: Seq<char>, c: Seq<char>)
    ensures
        text_le(a, b) || text_le(b, a),
        text_le(a, b) && text_le(b, a) ==> a == b,
        text_le(a, b) && text_le(b, c) ==> text_le(a, c),
{
    order::lemma_before_total(a, b);
    if order::before(a, b) && order::before(b, c) {
        order::lemma_before_transitive(a, b, c);
    }
}

impl Ordered for Sample {
    open spec fn le(a: SampleView, b: SampleView) -> bool {
        text_le(a.value, b.value)
    }

    proof fn lemma_total(a: SampleView, b: SampleView) {
        lemma_text_le(a.value, b.value, b.value);
    }

    proof fn lemma_transitive(a: SampleView, b: SampleView, c: SampleView) {
        lemma_text_le(a.value, b.value, c.value);
    }

    fn at_most(&self, other: &Self) -> (result: bool) {
        proof {
            order::lemma_before_total(self.value@, other.value@);
        }
        !str_before(other.value.as_str(), self.value.as_str())
    }
}

/// Whether a counted value ranks before another: by its count, then by its
/// text.
pub open spec fn ranks_before(a: RunView, b: RunView) -> bool {
    a.count > b.count || (a.count == b.count && order::before(a.value, b.value))
}

impl Ordered for Run {
    open spec fn le(a: RunView, b: RunView) -> bool {
        a.count > b.count || (a.count == b.count && text_le(a.value, b.value))
    }

    proof fn lemma_total(a: RunView, b: RunView) {
        lemma_text_le(a.value, b.value, b.value);
    }

    proof fn lemma_transitive(a: RunView, b: RunView, c: RunView) {
        lemma_text_le(a.value, b.value, c.value);
    }

    fn at_most(&self, other: &Self) -> (result: bool) {
        proof {
            order::lemma_before_total(self.value@, other.value@);
        }
        self.count > other.count || (self.count == other.count && !str_before(
            other.value.as_str(),
            self.value.as_str(),
        ))
    }
}

// ---------------------------------------------------------------------------
// Counts
// ---------------------------------------------------------------------------

/// How many samples have a value.
pub open spec fn value_count(samples: Seq<SampleView>, value: Seq<char>) -> nat
    decreases samples.len(),
{
    if samples.len() == 0 {
        0
    } else {
        value_count(samples.drop_last(), value) + if samples.last().value == value {
            1nat
        } else {
            0nat
        }
    }
}

/// Whether some sample has a value and a type.
pub open spec fn has_kind(
    samples: Seq<SampleView>,
    value: Seq<char>,
    kind: FacetValueType,
) -> bool {
    samples.contains(SampleView { value, kind: Some(kind) })
}

/// The types that a value has among the samples.
pub open spec fn kinds_of(samples: Seq<SampleView>, value: Seq<char>) -> Kinds {
    Kinds {
        string: has_kind(samples, value, FacetValueType::String),
        number: has_kind(samples, value, FacetValueType::Number),
        boolean: has_kind(samples, value, FacetValueType::Boolean),
        null: has_kind(samples, value, FacetValueType::Null),
        text: has_kind(samples, value, FacetValueType::Text),
    }
}

/// What the samples say of a value.
pub open spec fn run_of(samples: Seq<SampleView>, value: Seq<char>) -> RunView {
    RunView {
        value,
        count: value_count(samples, value) as int,
        kinds: kinds_of(samples, value),
    }
}

/// Whether runs count the samples: each value of a sample once, and no other.
pub open spec fn is_tally(runs: Seq<RunView>, samples: Seq<SampleView>) -> bool {
    &&& forall|i: int|
        0 <= i < runs.len() ==> (#[trigger] runs[i]) == run_of(samples, runs[i].value)
            && runs[i].count > 0
    &&& forall|i: int|
        0 <= i < samples.len() ==> runs.contains(run_of(samples, (#[trigger] samples[i]).value))
    &&& forall|i: int, j: int|
        0 <= i < j < runs.len() ==> (#[trigger] runs[i]).value != (#[trigger] runs[j]).value
}

/// Whether runs count the samples, most frequent first.
pub open spec fn is_ranking(runs: Seq<RunView>, samples: Seq<SampleView>) -> bool {
    &&& is_tally(runs, samples)
    &&& forall|i: int, j: int|
        0 <= i < j < runs.len() ==> ranks_before(#[trigger] runs[i], #[trigger] runs[j])
}

/// The values of samples with their counts, most frequent first.
pub open spec fn ranked(samples: Seq<SampleView>) -> Seq<RunView> {
    choose|runs: Seq<RunView>| is_ranking(runs, samples)
}

/// Counts add up.
pub proof fn lemma_value_count_add(a: Seq<SampleView>, b: Seq<SampleView>, value: Seq<char>)
    ensures
        value_count(a + b, value) == value_count(a, value) + value_count(b, value),
    decreases b.len(),
{
    if b.len() == 0 {
        assert(a + b =~= a);
    } else {
        assert((a + b).drop_last() =~= a + b.drop_last());
        lemma_value_count_add(a, b.drop_last(), value);
    }
}

proof fn lemma_value_count_bound(samples: Seq<SampleView>, value: Seq<char>)
    ensures
        value_count(samples, value) <= samples.len(),
    decreases samples.len(),
{
    if samples.len() > 0 {
        lemma_value_count_bound(samples.drop_last(), value);
    }
}

proof fn lemma_value_counted(samples: Seq<SampleView>, value: Seq<char>)
    ensures
        value_count(samples, value) > 0 <==> exists|i: int|
            0 <= i < samples.len() && (#[trigger] samples[i]).value == value,
    decreases samples.len(),
{
    if samples.len() > 0 {
        let front = samples.drop_last();
        lemma_value_counted(front, value);
        if value_count(front, value) > 0 {
            let k = choose|k: int| 0 <= k < front.len() && (#[trigger] front[k]).value == value;
            assert(samples[k].value == value);
        }
        if samples.last().value == value {
            assert(samples[samples.len() - 1].value == value);
        } else if exists|i: int| 0 <= i < samples.len() && (#[trigger] samples[i]).value
            == value {
            let k = choose|k: int| 0 <= k < samples.len() && (#[trigger] samples[k]).value == value;
            assert(front[k].value == value);
        }
    }
}

proof fn lemma_same_samples(a: Seq<SampleView>, b: Seq<SampleView>, value: Seq<char>)
    requires
        same_items(a, b),
    ensures
        run_of(a, value) == run_of(b, value),
{
    lemma_same_counts(a, b, value);
    assert forall|sample: SampleView| a.contains(sample) == #[trigger] b.contains(sample) by {
        sort::lemma_occurs(a, sample);
        sort::lemma_occurs(b, sample);
        assert(sort::occurrences(a, sample) == sort::occurrences(b, sample));
    }
}

proof fn lemma_same_counts(a: Seq<SampleView>, b: Seq<SampleView>, value: Seq<char>)
    requires
        same_items(a, b),
    ensures
        value_count(a, value) == value_count(b, value),
    decreases a.len(),
{
    sort::lemma_same_length(a, b);
    if a.len() > 0 {
        let item = a.last();
        assert(a.contains(item)) by {
            assert(a[a.len() - 1] == item);
        }
        sort::lemma_occurs(a, item);
        sort::lemma_occurs(b, item);
        assert(sort::occurrences(a, item) == sort::occurrences(b, item));
        let k = choose|k: int| 0 <= k < b.len() && b[k] == item;
        let front = a.drop_last();
        let rest = b.remove(k);
        let one = seq![item];
        assert(front + one =~= a);
        assert(b.take(k) + one + b.skip(k + 1) =~= b);
        assert(b.take(k) + b.skip(k + 1) =~= rest);
        assert forall|x: SampleView| #[trigger] sort::occurrences(front, x) == sort::occurrences(
            rest,
            x,
        ) by {
            sort::lemma_occurrences_add(front, one, x);
            sort::lemma_occurrences_add(b.take(k), one, x);
            sort::lemma_occurrences_add(b.take(k) + one, b.skip(k + 1), x);
            sort::lemma_occurrences_add(b.take(k), b.skip(k + 1), x);
            assert(sort::occurrences(a, x) == sort::occurrences(b, x));
        }
        lemma_same_counts(front, rest, value);
        lemma_value_count_add(front, one, value);
        lemma_value_count_add(b.take(k), one, value);
        lemma_value_count_add(b.take(k) + one, b.skip(k + 1), value);
        lemma_value_count_add(b.take(k), b.skip(k + 1), value);
    }
}

proof fn lemma_run_push(samples: Seq<SampleView>, sample: SampleView, value: Seq<char>)
    ensures
        value_count(samples.push(sample), value) == value_count(samples, value) + if sample.value
            == value {
            1nat
        } else {
            0nat
        },
        value != sample.value ==> run_of(samples.push(sample), value) == run_of(samples, value),
        forall|kind: FacetValueType| #[trigger]
            has_kind(samples.push(sample), value, kind) == (has_kind(samples, value, kind) || (
            sample.value == value && sample.kind == Some(kind))),
{
    let all = samples.push(sample);
    assert(all.drop_last() =~= samples);
    assert forall|kind: FacetValueType| #[trigger] has_kind(all, value, kind) == (has_kind(
        samples,
        value,
        kind,
    ) || (sample.value == value && sample.kind == Some(kind))) by {
        let wanted = SampleView { value, kind: Some(kind) };
        if samples.contains(wanted) {
            let k = choose|k: int| 0 <= k < samples.len() && samples[k] == wanted;
            assert(all[k] == wanted);
        }
        if sample.value == value && sample.kind == Some(kind) {
            assert(all[samples.len() as int] == wanted);
        }
        if all.contains(wanted) {
            let k = choose|k: int| 0 <= k < all.len() && all[k] == wanted;
            if k < samples.len() {
                assert(samples[k] == wanted);
            }
        }
    }
    if value != sample.value {
        assert(has_kind(all, value, FacetValueType::String) == has_kind(
            samples,
            value,
            FacetValueType::String,
        ));
        assert(has_kind(all, value, FacetValueType::Number) == has_kind(
            samples,
            value,
            FacetValueType::Number,
        ));
        assert(has_kind(all, value, FacetValueType::Boolean) == has_kind(
            samples,
            value,
            FacetValueType::Boolean,
        ));
        assert(has_kind(all, value, FacetValueType::Null) == has_kind(
            samples,
            value,
            FacetValueType::Null,
        ));
        assert(has_kind(all, value, FacetValueType::Text) == has_kind(
            samples,
            value,
            FacetValueType::Text,
        ));
    }
}

/// Ordered lists of the same runs are the same.
proof fn lemma_same_ranking(a: Seq<RunView>, b: Seq<RunView>)
    requires
        forall|i: int, j: int|
            0 <= i < j < a.len() ==> ranks_before(#[trigger] a[i], #[trigger] a[j]),
        forall|i: int, j: int|
            0 <= i < j < b.len() ==> ranks_before(#[trigger] b[i], #[trigger] b[j]),
        forall|run: RunView| a.contains(run) == #[trigger] b.contains(run),
    ensures
        a == b,
    decreases a.len(),
{
    if a.len() == 0 {
        if b.len() > 0 {
            assert(b.contains(b[0]));
            assert(a.contains(b[0]));
        }
        assert(a =~= b);
    } else {
        let last = a.last();
        assert(a[a.len() - 1] == last);
        assert(a.contains(last));
        assert(b.contains(last));
        let k = choose|k: int| 0 <= k < b.len() && b[k] == last;
        let other = b.last();
        assert(b[b.len() - 1] == other);
        assert(b.contains(other));
        assert(a.contains(other));
        let j = choose|j: int| 0 <= j < a.len() && a[j] == other;
        assert(last == other) by {
            if k < b.len() - 1 && j < a.len() - 1 {
                assert(ranks_before(b[k], b[b.len() - 1]));
                assert(ranks_before(a[j], a[a.len() - 1]));
                order::lemma_before_total(last.value, other.value);
            }
        }
        let af = a.drop_last();
        let bf = b.drop_last();
        assert forall|run: RunView| af.contains(run) == #[trigger] bf.contains(run) by {
            order::lemma_before_total(last.value, last.value);
            if af.contains(run) {
                let i = choose|i: int| 0 <= i < af.len() && af[i] == run;
                assert(a[i] == run && ranks_before(a[i], a[a.len() - 1]));
                assert(a.contains(run));
                assert(b.contains(run));
                let m = choose|m: int| 0 <= m < b.len() && b[m] == run;
                assert(bf[m] == run);
            }
            if bf.contains(run) {
                let i = choose|i: int| 0 <= i < bf.len() && bf[i] == run;
                assert(b[i] == run && ranks_before(b[i], b[b.len() - 1]));
                assert(b.contains(run));
                assert(a.contains(run));
                let m = choose|m: int| 0 <= m < a.len() && a[m] == run;
                assert(af[m] == run);
            }
        }
        assert forall|x: int, y: int| 0 <= x < y < af.len() implies ranks_before(
            #[trigger] af[x],
            #[trigger] af[y],
        ) by {
            assert(ranks_before(a[x], a[y]));
        }
        assert forall|x: int, y: int| 0 <= x < y < bf.len() implies ranks_before(
            #[trigger] bf[x],
            #[trigger] bf[y],
        ) by {
            assert(ranks_before(b[x], b[y]));
        }
        lemma_same_ranking(af, bf);
        assert(a =~= af.push(last));
        assert(b =~= bf.push(other));
    }
}

/// Samples have one ranking.
pub proof fn law_ranking_is_unique(a: Seq<RunView>, b: Seq<RunView>, samples: Seq<SampleView>)
    requires
        is_ranking(a, samples),
        is_ranking(b, samples),
    ensures
        a == b,
{
    assert forall|run: RunView| a.contains(run) == #[trigger] b.contains(run) by {
        if a.contains(run) {
            lemma_run_in_other(a, b, samples, run);
        }
        if b.contains(run) {
            lemma_run_in_other(b, a, samples, run);
        }
    }
    lemma_same_ranking(a, b);
}

proof fn lemma_run_in_other(
    a: Seq<RunView>,
    b: Seq<RunView>,
    samples: Seq<SampleView>,
    run: RunView,
)
    requires
        is_tally(a, samples),
        is_tally(b, samples),
        a.contains(run),
    ensures
        b.contains(run),
{
    let k = choose|k: int| 0 <= k < a.len() && a[k] == run;
    assert(a[k] == run_of(samples, a[k].value));
    lemma_value_counted(samples, run.value);
    let i = choose|i: int| 0 <= i < samples.len() && (#[trigger] samples[i]).value == run.value;
    assert(b.contains(run_of(samples, samples[i].value)));
}

fn add_kind(kinds: Kinds, kind: Option<FacetValueType>) -> (result: Kinds)
    ensures
        result.string == (kinds.string || kind == Some(FacetValueType::String)),
        result.number == (kinds.number || kind == Some(FacetValueType::Number)),
        result.boolean == (kinds.boolean || kind == Some(FacetValueType::Boolean)),
        result.null == (kinds.null || kind == Some(FacetValueType::Null)),
        result.text == (kinds.text || kind == Some(FacetValueType::Text)),
{
    let mut result = kinds;
    match kind {
        Some(FacetValueType::String) => {
            result.string = true;
        },
        Some(FacetValueType::Number) => {
            result.number = true;
        },
        Some(FacetValueType::Boolean) => {
            result.boolean = true;
        },
        Some(FacetValueType::Null) => {
            result.null = true;
        },
        Some(FacetValueType::Text) => {
            result.text = true;
        },
        None => {},
    }
    result
}

/// Counts samples that are in the order of their values.
fn tally_sorted(samples: &VecDeque<Sample>) -> (result: VecDeque<Run>)
    requires
        sorted::<Sample>(text::views(samples@)),
    ensures
        is_tally(text::views(result@), text::views(samples@)),
{
    let ghost all = text::views(samples@);
    let mut runs: VecDeque<Run> = VecDeque::new();
    let mut i: usize = 0;
    while i < samples.len()
        invariant
            i <= samples@.len(),
            all == text::views(samples@),
            sorted::<Sample>(all),
            is_tally(text::views(runs@), all.take(i as int)),
            i > 0 ==> runs@.len() > 0 && runs@[runs@.len() - 1]@.value == all[i - 1].value,
            i == 0 ==> runs@.len() == 0,
        decreases samples@.len() - i,
    {
        let ghost seen = all.take(i as int);
        let ghost before = text::views(runs@);
        let sample = &samples[i];
        let ghost value = sample.value@;
        assert(all[i as int] == sample@);
        assert(all.take(i + 1) =~= seen.push(sample@));
        proof {
            lemma_value_count_bound(seen, value);
            lemma_run_push(seen, sample@, value);
        }
        let count: usize = runs.len();
        let repeated = count > 0 && same(runs[count - 1].value.as_str(), sample.value.as_str());
        if repeated {
            let run = runs.pop_back().unwrap();
            assert(run@ == before[before.len() - 1]);
            assert(run@ == run_of(seen, value));
            let longer = Run {
                value: run.value,
                count: run.count + 1,
                kinds: add_kind(run.kinds, sample.kind),
            };
            runs.push_back(longer);
            assert(text::views(runs@) =~= before.drop_last().push(longer@));
            proof {
                assert(longer@ == run_of(seen.push(sample@), value)) by {
                    lemma_kinds_push(seen, sample@, value, run.kinds, longer.kinds);
                }
                lemma_tally_extended(before, text::views(runs@), seen, sample@);
            }
        } else {
            let run = Run {
                value: sample.value.clone(),
                count: 1,
                kinds: add_kind(
                    Kinds { string: false, number: false, boolean: false, null: false, text: false },
                    sample.kind,
                ),
            };
            runs.push_back(run);
            assert(text::views(runs@) =~= before.push(run@));
            proof {
                assert forall|j: int| 0 <= j < before.len() implies (#[trigger] before[j]).value
                    != value by {
                    if before[j].value == value {
                        lemma_value_counted(seen, value);
                        let k = choose|k: int|
                            0 <= k < seen.len() && (#[trigger] seen[k]).value == value;
                        let x = all[i - 1].value;
                        assert(seen[k] == all[k]);
                        if k < i - 1 {
                            assert(Sample::le(all[k], all[i - 1]));
                        }
                        assert(Sample::le(all[i - 1], all[i as int]));
                        lemma_text_le(value, x, value);
                        assert(x == value);
                    }
                }
                assert(value_count(seen, value) == 0) by {
                    lemma_value_counted(seen, value);
                    if value_count(seen, value) > 0 {
                        let k = choose|k: int|
                            0 <= k < seen.len() && (#[trigger] seen[k]).value == value;
                        assert(before.contains(run_of(seen, seen[k].value)));
                        let j = choose|j: int|
                            0 <= j < before.len() && before[j] == run_of(seen, value);
                        assert(before[j].value == value);
                    }
                }
                assert(run@ == run_of(seen.push(sample@), value)) by {
                    lemma_no_kinds(seen, value);
                    lemma_kinds_push(
                        seen,
                        sample@,
                        value,
                        Kinds {
                            string: false,
                            number: false,
                            boolean: false,
                            null: false,
                            text: false,
                        },
                        run.kinds,
                    );
                }
                lemma_tally_begun(before, text::views(runs@), seen, sample@);
            }
        }
        i += 1;
    }
    assert(all.take(i as int) =~= all);
    runs
}

proof fn lemma_no_kinds(samples: Seq<SampleView>, value: Seq<char>)
    requires
        value_count(samples, value) == 0,
    ensures
        kinds_of(samples, value) == (Kinds {
            string: false,
            number: false,
            boolean: false,
            null: false,
            text: false,
        }),
{
    lemma_value_counted(samples, value);
    assert forall|kind: FacetValueType| !#[trigger] has_kind(samples, value, kind) by {
        if has_kind(samples, value, kind) {
            let k = choose|k: int|
                0 <= k < samples.len() && samples[k] == (SampleView { value, kind: Some(kind) });
            assert(samples[k].value == value);
        }
    }
}

proof fn lemma_kinds_push(
    samples: Seq<SampleView>,
    sample: SampleView,
    value: Seq<char>,
    before: Kinds,
    after: Kinds,
)
    requires
        sample.value == value,
        before == kinds_of(samples, value),
        after.string == (before.string || sample.kind == Some(FacetValueType::String)),
        after.number == (before.number || sample.kind == Some(FacetValueType::Number)),
        after.boolean == (before.boolean || sample.kind == Some(FacetValueType::Boolean)),
        after.null == (before.null || sample.kind == Some(FacetValueType::Null)),
        after.text == (before.text || sample.kind == Some(FacetValueType::Text)),
    ensures
        after == kinds_of(samples.push(sample), value),
{
    lemma_run_push(samples, sample, value);
    let all = samples.push(sample);
    assert(has_kind(all, value, FacetValueType::String) == after.string);
    assert(has_kind(all, value, FacetValueType::Number) == after.number);
    assert(has_kind(all, value, FacetValueType::Boolean) == after.boolean);
    assert(has_kind(all, value, FacetValueType::Null) == after.null);
    assert(has_kind(all, value, FacetValueType::Text) == after.text);
}

proof fn lemma_tally_extended(
    before: Seq<RunView>,
    after: Seq<RunView>,
    samples: Seq<SampleView>,
    sample: SampleView,
)
    requires
        is_tally(before, samples),
        before.len() > 0,
        before.last().value == sample.value,
        after == before.drop_last().push(run_of(samples.push(sample), sample.value)),
    ensures
        is_tally(after, samples.push(sample)),
{
    let all = samples.push(sample);
    lemma_run_push(samples, sample, sample.value);
    let last = before.len() - 1;
    assert forall|i: int| 0 <= i < after.len() implies (#[trigger] after[i]) == run_of(
        all,
        after[i].value,
    ) && after[i].count > 0 by {
        if i < last {
            assert(after[i] == before[i]);
            assert(before[i].value != before[last].value);
            lemma_run_push(samples, sample, before[i].value);
        }
    }
    assert forall|i: int| 0 <= i < all.len() implies after.contains(
        run_of(all, (#[trigger] all[i]).value),
    ) by {
        let value = all[i].value;
        if value == sample.value {
            assert(after[last] == run_of(all, value));
        } else {
            lemma_run_push(samples, sample, value);
            assert(samples[i].value == value);
            let k = choose|k: int|
                0 <= k < before.len() && before[k] == run_of(samples, samples[i].value);
            assert(before[k].value == value);
            assert(after[k] == before[k]);
        }
    }
    assert forall|i: int, j: int| 0 <= i < j < after.len() implies (#[trigger] after[i]).value != (
    #[trigger] after[j]).value by {
        assert(before[i].value != before[j].value);
    }
}

proof fn lemma_tally_begun(
    before: Seq<RunView>,
    after: Seq<RunView>,
    samples: Seq<SampleView>,
    sample: SampleView,
)
    requires
        is_tally(before, samples),
        forall|i: int| 0 <= i < before.len() ==> (#[trigger] before[i]).value != sample.value,
        after == before.push(run_of(samples.push(sample), sample.value)),
    ensures
        is_tally(after, samples.push(sample)),
{
    let all = samples.push(sample);
    lemma_run_push(samples, sample, sample.value);
    assert forall|i: int| 0 <= i < after.len() implies (#[trigger] after[i]) == run_of(
        all,
        after[i].value,
    ) && after[i].count > 0 by {
        if i < before.len() {
            assert(after[i] == before[i]);
            lemma_run_push(samples, sample, before[i].value);
        }
    }
    assert forall|i: int| 0 <= i < all.len() implies after.contains(
        run_of(all, (#[trigger] all[i]).value),
    ) by {
        let value = all[i].value;
        if value == sample.value {
            assert(after[before.len() as int] == run_of(all, value));
        } else {
            lemma_run_push(samples, sample, value);
            assert(samples[i].value == value);
            let k = choose|k: int|
                0 <= k < before.len() && before[k] == run_of(samples, samples[i].value);
            assert(after[k] == before[k]);
        }
    }
    assert forall|i: int, j: int| 0 <= i < j < after.len() implies (#[trigger] after[i]).value != (
    #[trigger] after[j]).value by {
        if j < before.len() {
            assert(before[i].value != before[j].value);
        } else {
            assert(after[i] == before[i]);
        }
    }
}

/// A tally in another order, and of samples in another order.
proof fn lemma_tally_reordered(
    runs: Seq<RunView>,
    reordered: Seq<RunView>,
    samples: Seq<SampleView>,
    others: Seq<SampleView>,
)
    requires
        is_tally(runs, samples),
        same_items(reordered, runs),
        same_items(samples, others),
    ensures
        is_tally(reordered, others),
{
    assert forall|run: RunView| reordered.contains(run) == #[trigger] runs.contains(run) by {
        sort::lemma_occurs(runs, run);
        sort::lemma_occurs(reordered, run);
        assert(sort::occurrences(reordered, run) == sort::occurrences(runs, run));
    }
    assert forall|i: int| 0 <= i < reordered.len() implies (#[trigger] reordered[i]) == run_of(
        others,
        reordered[i].value,
    ) && reordered[i].count > 0 by {
        assert(reordered.contains(reordered[i]));
        assert(runs.contains(reordered[i]));
        let k = choose|k: int| 0 <= k < runs.len() && runs[k] == reordered[i];
        assert(runs[k] == run_of(samples, runs[k].value));
        lemma_same_samples(samples, others, reordered[i].value);
    }
    assert forall|i: int| 0 <= i < others.len() implies reordered.contains(
        run_of(others, (#[trigger] others[i]).value),
    ) by {
        let value = others[i].value;
        lemma_same_samples(samples, others, value);
        sort::lemma_occurs(samples, others[i]);
        sort::lemma_occurs(others, others[i]);
        assert(others.contains(others[i]));
        assert(sort::occurrences(samples, others[i]) == sort::occurrences(others, others[i]));
        let k = choose|k: int| 0 <= k < samples.len() && samples[k] == others[i];
        assert(runs.contains(run_of(samples, samples[k].value)));
    }
    assert forall|i: int, j: int| 0 <= i < j < reordered.len() implies (
    #[trigger] reordered[i]).value != (#[trigger] reordered[j]).value by {
        if reordered[i].value == reordered[j].value {
            // Both are the one run of their value, which occurs once.
            let run = reordered[i];
            assert(reordered.contains(reordered[i]) && reordered.contains(reordered[j]));
            assert(runs.contains(reordered[i]) && runs.contains(reordered[j]));
            let x = choose|x: int| 0 <= x < runs.len() && runs[x] == reordered[i];
            let y = choose|y: int| 0 <= y < runs.len() && runs[y] == reordered[j];
            if x < y {
                assert(runs[x].value != runs[y].value);
            }
            if y < x {
                assert(runs[y].value != runs[x].value);
            }
            assert(reordered[j] == run);
            lemma_occurs_twice(reordered, i, j);
            lemma_occurs_once(runs, x);
            assert(sort::occurrences(reordered, run) == sort::occurrences(runs, run));
        }
    }
}

proof fn lemma_occurs_twice(runs: Seq<RunView>, i: int, j: int)
    requires
        0 <= i < j < runs.len(),
        runs[i] == runs[j],
    ensures
        sort::occurrences(runs, runs[i]) >= 2,
{
    let run = runs[i];
    sort::lemma_occurrences_add(runs.take(j), runs.skip(j), run);
    assert(runs.take(j) + runs.skip(j) =~= runs);
    assert(runs.take(j)[i] == run);
    assert(runs.skip(j)[0] == run);
    assert(runs.take(j).contains(run));
    assert(runs.skip(j).contains(run));
    sort::lemma_occurs(runs.take(j), run);
    sort::lemma_occurs(runs.skip(j), run);
}

proof fn lemma_occurs_once(runs: Seq<RunView>, i: int)
    requires
        0 <= i < runs.len(),
        forall|x: int, y: int|
            0 <= x < y < runs.len() ==> (#[trigger] runs[x]).value != (#[trigger] runs[y]).value,
    ensures
        sort::occurrences(runs, runs[i]) == 1,
{
    let run = runs[i];
    let one = seq![run];
    sort::lemma_occurrences_add(runs.take(i), one, run);
    sort::lemma_occurrences_add(runs.take(i) + one, runs.skip(i + 1), run);
    assert(runs.take(i) + one + runs.skip(i + 1) =~= runs);
    reveal_with_fuel(sort::occurrences, 2);
    assert(one.drop_last() =~= Seq::<RunView>::empty());
    assert(sort::occurrences(one, run) == 1);
    sort::lemma_occurs(runs.take(i), run);
    sort::lemma_occurs(runs.skip(i + 1), run);
    let front = runs.take(i);
    if front.contains(run) {
        let k = choose|k: int| 0 <= k < front.len() && front[k] == run;
        assert(runs[k].value != runs[i].value);
    }
    let rest = runs.skip(i + 1);
    if rest.contains(run) {
        let k = choose|k: int| 0 <= k < rest.len() && rest[k] == run;
        assert(runs[i].value != runs[k + i + 1].value);
    }
}

/// Counts samples, most frequent values first.
pub fn rank(samples: VecDeque<Sample>) -> (result: VecDeque<Run>)
    ensures
        text::views(result@) == ranked(text::views(samples@)),
        is_ranking(text::views(result@), text::views(samples@)),
{
    let ghost all = text::views(samples@);
    let ordered = sort(samples);
    let runs = tally_sorted(&ordered);
    let ghost counted = text::views(runs@);
    let result = sort(runs);
    proof {
        let ranking = text::views(result@);
        assert(same_items(text::views(ordered@), all));
        lemma_tally_reordered(counted, ranking, text::views(ordered@), all);
        assert forall|i: int, j: int| 0 <= i < j < ranking.len() implies ranks_before(
            #[trigger] ranking[i],
            #[trigger] ranking[j],
        ) by {
            assert(Run::le(ranking[i], ranking[j]));
            assert(ranking[i].value != ranking[j].value);
        }
        assert(is_ranking(ranking, all));
        law_ranking_is_unique(ranking, ranked(all), all);
    }
    result
}

// ---------------------------------------------------------------------------
// Totals
// ---------------------------------------------------------------------------

/// How many samples runs count together.
pub open spec fn total(runs: Seq<RunView>) -> int
    decreases runs.len(),
{
    if runs.len() == 0 {
        0
    } else {
        total(runs.drop_last()) + runs.last().count
    }
}

/// All samples are counted, each once.
pub proof fn law_every_sample_is_counted(samples: Seq<SampleView>)
    ensures
        is_ranking(ranked(samples), samples),
        total(ranked(samples)) == samples.len(),
{
    let tally = lemma_tally(samples);
    let ranking = lemma_ranking(tally, samples);
    assert(is_ranking(ranking, samples));
    let runs = ranked(samples);
    let values = Seq::new(runs.len(), |i: int| runs[i].value);
    assert forall|i: int| 0 <= i < samples.len() implies values.contains(
        (#[trigger] samples[i]).value,
    ) by {
        let run = run_of(samples, samples[i].value);
        assert(runs.contains(run));
        let k = choose|k: int| 0 <= k < runs.len() && runs[k] == run;
        assert(values[k] == samples[i].value);
    }
    lemma_total(runs, samples, values);
    lemma_counted(values, samples);
}

/// How many samples have one of some values.
spec fn counted(values: Seq<Seq<char>>, samples: Seq<SampleView>) -> int
    decreases values.len(),
{
    if values.len() == 0 {
        0
    } else {
        counted(values.drop_last(), samples) + value_count(samples, values.last())
    }
}

proof fn lemma_total(runs: Seq<RunView>, samples: Seq<SampleView>, values: Seq<Seq<char>>)
    requires
        forall|i: int|
            0 <= i < runs.len() ==> (#[trigger] runs[i]) == run_of(samples, runs[i].value),
        values == Seq::new(runs.len(), |i: int| runs[i].value),
    ensures
        total(runs) == counted(values, samples),
    decreases runs.len(),
{
    if runs.len() > 0 {
        let front = runs.drop_last();
        assert(values.drop_last() =~= Seq::new(front.len(), |i: int| front[i].value));
        assert forall|i: int| 0 <= i < front.len() implies (#[trigger] front[i]) == run_of(
            samples,
            front[i].value,
        ) by {
            assert(runs[i] == front[i]);
        }
        lemma_total(front, samples, values.drop_last());
        assert(runs[runs.len() - 1] == runs.last());
    }
}

proof fn lemma_counted(values: Seq<Seq<char>>, samples: Seq<SampleView>)
    requires
        forall|i: int, j: int|
            0 <= i < j < values.len() ==> (#[trigger] values[i]) != (#[trigger] values[j]),
        forall|i: int| 0 <= i < samples.len() ==> values.contains((#[trigger] samples[i]).value),
    ensures
        counted(values, samples) == samples.len(),
    decreases samples.len(),
{
    if samples.len() == 0 {
        lemma_counted_nothing(values, samples);
    } else {
        let front = samples.drop_last();
        assert forall|i: int| 0 <= i < front.len() implies values.contains(
            (#[trigger] front[i]).value,
        ) by {
            assert(samples[i] == front[i]);
        }
        lemma_counted(values, front);
        lemma_counted_last(values, samples);
        assert(samples[samples.len() - 1] == samples.last());
    }
}

proof fn lemma_counted_nothing(values: Seq<Seq<char>>, samples: Seq<SampleView>)
    requires
        samples.len() == 0,
    ensures
        counted(values, samples) == 0,
    decreases values.len(),
{
    if values.len() > 0 {
        lemma_counted_nothing(values.drop_last(), samples);
    }
}

proof fn lemma_counted_last(values: Seq<Seq<char>>, samples: Seq<SampleView>)
    requires
        samples.len() > 0,
        forall|i: int, j: int|
            0 <= i < j < values.len() ==> (#[trigger] values[i]) != (#[trigger] values[j]),
    ensures
        counted(values, samples) == counted(values, samples.drop_last()) + if values.contains(
            samples.last().value,
        ) {
            1int
        } else {
            0int
        },
    decreases values.len(),
{
    if values.len() > 0 {
        let front = values.drop_last();
        let value = samples.last().value;
        assert forall|i: int, j: int| 0 <= i < j < front.len() implies (#[trigger] front[i]) != (
        #[trigger] front[j]) by {
            assert(values[i] != values[j]);
        }
        lemma_counted_last(front, samples);
        if front.contains(value) {
            let k = choose|k: int| 0 <= k < front.len() && front[k] == value;
            assert(values[k] == value);
            assert(values[k] != values[values.len() - 1]);
        } else if values.contains(value) {
            let k = choose|k: int| 0 <= k < values.len() && values[k] == value;
            if k < front.len() {
                assert(front[k] == value);
            }
        }
        if values.last() == value {
            assert(values[values.len() - 1] == value);
        }
    }
}

proof fn lemma_tally(samples: Seq<SampleView>) -> (runs: Seq<RunView>)
    ensures
        is_tally(runs, samples),
    decreases samples.len(),
{
    if samples.len() == 0 {
        Seq::empty()
    } else {
        let front = samples.drop_last();
        let value = samples.last().value;
        let before = lemma_tally(front);
        let run = run_of(samples, value);
        assert(front.push(samples.last()) =~= samples);
        assert forall|other: Seq<char>| other != value implies #[trigger] run_of(samples, other)
            == run_of(front, other) by {
            lemma_run_push(front, samples.last(), other);
        }
        let runs = if exists|k: int| 0 <= k < before.len() && (#[trigger] before[k]).value == value {
            let k = choose|k: int| 0 <= k < before.len() && (#[trigger] before[k]).value == value;
            before.update(k, run)
        } else {
            before.push(run)
        };
        assert forall|i: int| 0 <= i < runs.len() implies (#[trigger] runs[i]) == run_of(
            samples,
            runs[i].value,
        ) && runs[i].count > 0 by {
            if runs[i] != run {
                assert(runs[i] == before[i]);
            }
        }
        assert forall|i: int| 0 <= i < samples.len() implies runs.contains(
            run_of(samples, (#[trigger] samples[i]).value),
        ) by {
            let wanted = samples[i].value;
            if wanted == value {
                if exists|k: int| 0 <= k < before.len() && (#[trigger] before[k]).value == value {
                    let k = choose|k: int|
                        0 <= k < before.len() && (#[trigger] before[k]).value == value;
                    assert(runs[k] == run);
                } else {
                    assert(runs[before.len() as int] == run);
                }
            } else {
                assert(front[i].value == wanted);
                assert(before.contains(run_of(front, wanted)));
                let k = choose|k: int| 0 <= k < before.len() && before[k] == run_of(front, wanted);
                assert(runs[k] == run_of(samples, wanted));
            }
        }
        assert forall|i: int, j: int| 0 <= i < j < runs.len() implies (#[trigger] runs[i]).value
            != (#[trigger] runs[j]).value by {
            if i < before.len() && j < before.len() {
                assert(before[i].value != before[j].value);
            }
        }
        runs
    }
}

/// Runs in order, of which each is one of others.
spec fn in_rank(runs: Seq<RunView>, others: Seq<RunView>) -> bool {
    &&& forall|i: int, j: int|
        0 <= i < j < runs.len() ==> ranks_before(#[trigger] runs[i], #[trigger] runs[j])
    &&& forall|run: RunView| runs.contains(run) == #[trigger] others.contains(run)
}

proof fn lemma_insert(runs: Seq<RunView>, others: Seq<RunView>, run: RunView) -> (result: Seq<
    RunView,
>)
    requires
        in_rank(runs, others),
        forall|i: int| 0 <= i < runs.len() ==> (#[trigger] runs[i]).value != run.value,
    ensures
        in_rank(result, others.push(run)),
    decreases runs.len(),
{
    let all = others.push(run);
    assert forall|x: RunView| #[trigger] all.contains(x) == (others.contains(x) || x == run) by {
        if others.contains(x) {
            let k = choose|k: int| 0 <= k < others.len() && others[k] == x;
            assert(all[k] == x);
        }
        if x == run {
            assert(all[others.len() as int] == x);
        }
        if all.contains(x) && x != run {
            let k = choose|k: int| 0 <= k < all.len() && all[k] == x;
            assert(others[k] == x);
        }
    }
    if runs.len() == 0 || ranks_before(runs.last(), run) {
        let result = runs.push(run);
        assert forall|x: RunView| result.contains(x) == #[trigger] all.contains(x) by {
            if runs.contains(x) {
                let k = choose|k: int| 0 <= k < runs.len() && runs[k] == x;
                assert(result[k] == x);
            }
            if x == run {
                assert(result[runs.len() as int] == x);
            }
            if result.contains(x) && x != run {
                let k = choose|k: int| 0 <= k < result.len() && result[k] == x;
                assert(runs[k] == x);
            }
            assert(runs.contains(x) == others.contains(x));
        }
        assert forall|i: int, j: int| 0 <= i < j < result.len() implies ranks_before(
            #[trigger] result[i],
            #[trigger] result[j],
        ) by {
            if j < runs.len() {
                assert(ranks_before(runs[i], runs[j]));
            } else if i < runs.len() - 1 {
                assert(ranks_before(runs[i], runs[runs.len() - 1]));
                lemma_ranks_transitive(runs[i], runs.last(), run);
            }
        }
        result
    } else {
        let last = runs.last();
        let front = runs.drop_last();
        assert forall|i: int, j: int| 0 <= i < j < front.len() implies ranks_before(
            #[trigger] front[i],
            #[trigger] front[j],
        ) by {
            assert(ranks_before(runs[i], runs[j]));
        }
        assert forall|i: int| 0 <= i < front.len() implies (#[trigger] front[i]).value
            != run.value by {
            assert(runs[i].value != run.value);
        }
        let inner = lemma_insert(front, front, run);
        let result = inner.push(last);
        assert(runs[runs.len() - 1] == last);
        order::lemma_before_total(last.value, run.value);
        assert(ranks_before(run, last));
        let middle = front.push(run);
        assert forall|i: int| 0 <= i < inner.len() implies ranks_before(
            #[trigger] inner[i],
            last,
        ) by {
            assert(inner.contains(inner[i]));
            assert(middle.contains(inner[i]));
            let k = choose|k: int| 0 <= k < middle.len() && middle[k] == inner[i];
            if k < front.len() {
                assert(ranks_before(runs[k], runs[runs.len() - 1]));
            }
        }
        assert forall|i: int, j: int| 0 <= i < j < result.len() implies ranks_before(
            #[trigger] result[i],
            #[trigger] result[j],
        ) by {
            if j < inner.len() {
                assert(ranks_before(inner[i], inner[j]));
            } else {
                assert(ranks_before(inner[i], last));
            }
        }
        assert forall|x: RunView| result.contains(x) == #[trigger] all.contains(x) by {
            assert(inner.contains(x) == middle.contains(x));
            assert(runs.contains(x) == others.contains(x));
            if result.contains(x) {
                let k = choose|k: int| 0 <= k < result.len() && result[k] == x;
                if k < inner.len() {
                    assert(inner[k] == x);
                    let m = choose|m: int| 0 <= m < middle.len() && middle[m] == x;
                    if m < front.len() {
                        assert(runs[m] == x);
                    }
                } else {
                    assert(runs[runs.len() - 1] == x);
                }
            }
            if all.contains(x) {
                if x == run {
                    assert(middle[front.len() as int] == x);
                } else {
                    let k = choose|k: int| 0 <= k < runs.len() && runs[k] == x;
                    if k < front.len() {
                        assert(middle[k] == x);
                    }
                }
                if inner.contains(x) {
                    let k = choose|k: int| 0 <= k < inner.len() && inner[k] == x;
                    assert(result[k] == x);
                } else {
                    assert(result[inner.len() as int] == x);
                }
            }
        }
        result
    }
}

proof fn lemma_ranks_transitive(a: RunView, b: RunView, c: RunView)
    requires
        ranks_before(a, b),
        ranks_before(b, c),
    ensures
        ranks_before(a, c),
{
    if a.count == b.count && b.count == c.count {
        order::lemma_before_transitive(a.value, b.value, c.value);
    }
}

proof fn lemma_ranked_prefix(tally: Seq<RunView>, n: int) -> (runs: Seq<RunView>)
    requires
        0 <= n <= tally.len(),
        forall|i: int, j: int|
            0 <= i < j < tally.len() ==> (#[trigger] tally[i]).value != (#[trigger] tally[j]).value,
    ensures
        in_rank(runs, tally.take(n)),
    decreases n,
{
    if n == 0 {
        assert(tally.take(0) =~= Seq::<RunView>::empty());
        Seq::empty()
    } else {
        let others = tally.take(n - 1);
        let runs = lemma_ranked_prefix(tally, n - 1);
        let run = tally[n - 1];
        assert forall|i: int| 0 <= i < runs.len() implies (#[trigger] runs[i]).value
            != run.value by {
            assert(runs.contains(runs[i]));
            assert(others.contains(runs[i]));
            let k = choose|k: int| 0 <= k < others.len() && others[k] == runs[i];
            assert(tally[k].value != tally[n - 1].value);
        }
        assert(others.push(run) =~= tally.take(n));
        lemma_insert(runs, others, run)
    }
}

proof fn lemma_ranking(tally: Seq<RunView>, samples: Seq<SampleView>) -> (runs: Seq<RunView>)
    requires
        is_tally(tally, samples),
    ensures
        is_ranking(runs, samples),
{
    let runs = lemma_ranked_prefix(tally, tally.len() as int);
    assert(tally.take(tally.len() as int) =~= tally);
    assert forall|i: int| 0 <= i < runs.len() implies (#[trigger] runs[i]) == run_of(
        samples,
        runs[i].value,
    ) && runs[i].count > 0 by {
        assert(runs.contains(runs[i]));
        assert(tally.contains(runs[i]));
        let k = choose|k: int| 0 <= k < tally.len() && tally[k] == runs[i];
        assert(tally[k] == run_of(samples, tally[k].value));
    }
    assert forall|i: int| 0 <= i < samples.len() implies runs.contains(
        run_of(samples, (#[trigger] samples[i]).value),
    ) by {
        assert(tally.contains(run_of(samples, samples[i].value)));
    }
    assert forall|i: int, j: int| 0 <= i < j < runs.len() implies (#[trigger] runs[i]).value != (
    #[trigger] runs[j]).value by {
        assert(ranks_before(runs[i], runs[j]));
        if runs[i].value == runs[j].value {
            assert(runs[i] == run_of(samples, runs[i].value));
            assert(runs[j] == run_of(samples, runs[j].value));
            order::lemma_before_total(runs[i].value, runs[i].value);
        }
    }
    runs
}

} // verus!
