//! Counting sort: tally the values into a table, then write them back in
//! order, one table or sequence entry per step.

use super::at_least_zero;
use super::{highlight_valid, sorted, Reasons, Sorter, Status};
use vstd::multiset::Multiset;
use vstd::prelude::*;

verus! {

/// The state of a counting sort between two steps.
pub struct CountingSort {
    status: Status,
    step_phase: usize,
    counts: Vec<usize>,
    top_count: usize,
    max_value: usize,
    processing_index: usize,
    current_value: usize,
    array_index: usize,
}

/// The configuration of a counting sort.
///
/// `phase` is 0 before the table exists, 1 while the values are tallied, 2
/// while they are written back and 3 when all are written. `max_value` is
/// the largest value of the sequence. For a value `v` below it,
/// `counts[v]` is the number of copies of `v` tallied and not yet written;
/// `top` is that number for `max_value` itself, which so needs no entry in
/// the table. `processing_index` is the next position to tally,
/// `current_value` the value being written and `array_index` the next
/// position to write.
pub struct CountingModel {
    pub status: Status,
    pub phase: int,
    pub counts: Seq<usize>,
    pub top: usize,
    pub max_value: int,
    pub processing_index: int,
    pub current_value: int,
    pub array_index: int,
}

impl View for CountingSort {
    type V = CountingModel;

    closed spec fn view(&self) -> CountingModel {
        CountingModel {
            status: self.status,
            phase: self.step_phase as int,
            counts: self.counts@,
            top: self.top_count,
            max_value: self.max_value as int,
            processing_index: self.processing_index as int,
            current_value: self.current_value as int,
            array_index: self.array_index as int,
        }
    }
}

/// The largest value of `s`, or 0 where it has none.
pub open spec fn seq_max(s: Seq<usize>) -> usize
    decreases s.len(),
{
    if s.len() == 0 {
        0
    } else if seq_max(s.drop_last()) >= s.last() {
        seq_max(s.drop_last())
    } else {
        s.last()
    }
}

/// The multiset that holds `counts[v]` copies of each value `v`.
pub open spec fn bag(counts: Seq<usize>) -> Multiset<usize>
    decreases counts.len(),
{
    if counts.len() == 0 {
        Multiset::empty()
    } else {
        bag(counts.drop_last()).add(
            Multiset::empty().update((counts.len() - 1) as usize, counts.last() as nat),
        )
    }
}

/// The numbers of copies for all values up to the largest: the table, and
/// behind it the number for the largest value.
pub open spec fn tallies(m: CountingModel) -> Seq<usize> {
    m.counts.push(m.top)
}

/// The configuration before the first step.
pub open spec fn counting_initial() -> CountingModel {
    CountingModel {
        status: Status::fresh(),
        phase: 0,
        counts: Seq::empty(),
        top: 0,
        max_value: 0,
        processing_index: 0,
        current_value: 0,
        array_index: 0,
    }
}

/// One step of the sort.
///
/// A sequence of fewer than two values is complete at once. Otherwise the
/// first step finds the maximum and makes a table of zeros with one entry
/// for each value below it. Each step of the phase after it tallies one
/// value of the sequence, which counts as one comparison; a step of its own
/// leads on when all are tallied. Each step of the next phase writes one
/// copy of the current value to the next position, which counts as one
/// exchange, or, when no copy of the current value is left, moves on to the
/// next value or, behind the largest, to the last phase. The last step
/// marks the sort complete.
pub open spec fn counting_next(m: CountingModel, s: Seq<usize>) -> (CountingModel, Seq<usize>) {
    if m.status.finished {
        (m, s)
    } else if s.len() <= 1 {
        (CountingModel { status: m.status.idle().finish(), ..m }, s)
    } else if m.phase == 0 {
        (
            CountingModel {
                status: m.status.idle(),
                phase: 1,
                counts: Seq::new(seq_max(s) as nat, |v: int| 0usize),
                top: 0,
                max_value: seq_max(s) as int,
                processing_index: 0,
                ..m
            },
            s,
        )
    } else if m.phase == 1 {
        if m.processing_index < s.len() {
            let i = m.processing_index;
            let v = s[i] as int;
            (
                CountingModel {
                    status: m.status.after_visit(i, i, false),
                    counts: if v < m.max_value {
                        m.counts.update(v, (m.counts[v] + 1) as usize)
                    } else {
                        m.counts
                    },
                    top: if v < m.max_value {
                        m.top
                    } else {
                        (m.top + 1) as usize
                    },
                    processing_index: i + 1,
                    ..m
                },
                s,
            )
        } else {
            (
                CountingModel {
                    status: m.status.idle(),
                    phase: 2,
                    processing_index: 0,
                    current_value: 0,
                    ..m
                },
                s,
            )
        }
    } else if m.phase == 2 {
        let v = m.current_value;
        if tallies(m)[v] > 0 {
            let i = m.array_index;
            (
                CountingModel {
                    status: m.status.after_move(i, i),
                    counts: if v < m.max_value {
                        m.counts.update(v, (m.counts[v] - 1) as usize)
                    } else {
                        m.counts
                    },
                    top: if v < m.max_value {
                        m.top
                    } else {
                        (m.top - 1) as usize
                    },
                    array_index: i + 1,
                    ..m
                },
                s.update(i, v as usize),
            )
        } else if v < m.max_value {
            (CountingModel { status: m.status.idle(), current_value: v + 1, ..m }, s)
        } else {
            (CountingModel { status: m.status.idle(), phase: 3, ..m }, s)
        }
    } else {
        (CountingModel { status: m.status.idle().finish(), ..m }, s)
    }
}

/// The values that the run is sorting: while values are written back, those
/// already written and those that the table still holds.
pub open spec fn counting_content(m: CountingModel, s: Seq<usize>) -> Multiset<usize> {
    if m.phase >= 2 {
        s.take(m.array_index).to_multiset().add(bag(tallies(m)))
    } else {
        s.to_multiset()
    }
}

/// The configurations that a run over `s` can be in.
pub open spec fn counting_inv(m: CountingModel, s: Seq<usize>) -> bool {
    &&& s.len() <= usize::MAX
    &&& highlight_valid(m.status.special, s.len())
    &&& 0 <= m.phase <= 3
    &&& m.status.finished ==> sorted(s) && (m.phase == 0 || m.phase == 3)
    &&& m.phase <= 1 ==> m.array_index == 0
    &&& m.phase >= 1 ==> {
        &&& 2 <= s.len()
        &&& 0 <= m.max_value <= usize::MAX
        &&& m.counts.len() == m.max_value
    }
    &&& m.phase == 1 ==> {
        &&& 0 <= m.processing_index <= s.len()
        &&& forall|i: int| 0 <= i < s.len() ==> s[i] <= m.max_value
        &&& forall|v: int|
            0 <= v <= m.max_value ==> #[trigger] tallies(m)[v] == s.take(
                m.processing_index,
            ).to_multiset().count(v as usize)
    }
    &&& m.phase == 2 ==> {
        &&& 0 <= m.current_value <= m.max_value
        &&& 0 <= m.array_index <= s.len()
        &&& sorted(s.take(m.array_index))
        &&& forall|i: int| 0 <= i < m.array_index ==> s[i] <= m.current_value
        &&& forall|v: int| 0 <= v < m.current_value ==> #[trigger] tallies(m)[v] == 0
        &&& bag(tallies(m)).len() + m.array_index == s.len()
    }
    &&& m.phase == 3 ==> {
        &&& m.array_index == s.len()
        &&& sorted(s)
        &&& forall|v: int| 0 <= v <= m.max_value ==> #[trigger] tallies(m)[v] == 0
    }
}

/// `bag(counts)` holds `counts[v]` copies of `v`, and none of a value beyond the table.
pub proof fn lemma_bag_count(counts: Seq<usize>, v: usize)
    requires
        counts.len() <= usize::MAX + 1,
    ensures
        bag(counts).count(v) == if v < counts.len() {
            counts[v as int] as nat
        } else {
            0
        },
    decreases counts.len(),
{
    broadcast use vstd::multiset::group_multiset_axioms;
    broadcast use vstd::multiset::lemma_update_same;
    broadcast use vstd::multiset::lemma_update_different;

    if counts.len() > 0 {
        lemma_bag_count(counts.drop_last(), v);
        let top = (counts.len() - 1) as usize;
        let one = Multiset::<usize>::empty().update(top, counts.last() as nat);
        if v == top {
            assert(one.count(v) == counts.last() as nat);
        } else {
            assert(one.count(v) == Multiset::<usize>::empty().count(v));
        }
    }
}

/// The maximum of a sequence is at least each of its values, and is one of
/// them where there is any.
pub proof fn lemma_seq_max(s: Seq<usize>)
    ensures
        forall|i: int| 0 <= i < s.len() ==> s[i] <= seq_max(s),
        s.len() > 0 ==> exists|i: int| 0 <= i < s.len() && s[i] == seq_max(s),
    decreases s.len(),
{
    if s.len() > 0 {
        let t = s.drop_last();
        lemma_seq_max(t);
        assert forall|i: int| 0 <= i < s.len() implies s[i] <= seq_max(s) by {
            if i < t.len() {
                assert(t[i] == s[i]);
            }
        }
        if t.len() > 0 && seq_max(t) >= s.last() {
            let i = choose|i: int| 0 <= i < t.len() && t[i] == seq_max(t);
            assert(s[i] == seq_max(s));
        } else {
            assert(s[s.len() - 1] == seq_max(s));
        }
    }
}

/// A sequence holds no more copies of a value than it has positions.
proof fn lemma_count_le_len(s: Seq<usize>, v: usize)
    ensures
        s.to_multiset().count(v) <= s.len(),
{
    broadcast use vstd::multiset::group_multiset_axioms;
    broadcast use vstd::seq_lib::group_to_multiset_ensures;

    let ms = s.to_multiset();
    assert(ms.count(v) <= ms.len());
    assert(ms.len() == s.len());
}

/// A table of zeros stands for the empty multiset.
proof fn lemma_bag_zero(counts: Seq<usize>)
    requires
        counts.len() <= usize::MAX + 1,
        forall|v: int| 0 <= v < counts.len() ==> #[trigger] counts[v] == 0,
    ensures
        bag(counts) == Multiset::<usize>::empty(),
        bag(counts).len() == 0,
{
    broadcast use vstd::multiset::group_multiset_axioms;

    assert forall|v: usize| bag(counts).count(v) == 0 by {
        lemma_bag_count(counts, v);
    }
    assert(bag(counts) =~= Multiset::<usize>::empty());
}

/// Taking one copy of `v` out of the table takes one out of its multiset.
proof fn lemma_bag_take(counts: Seq<usize>, v: int)
    requires
        counts.len() <= usize::MAX + 1,
        0 <= v < counts.len(),
        counts[v] > 0,
    ensures
        bag(counts) == bag(counts.update(v, (counts[v] - 1) as usize)).insert(v as usize),
        bag(counts).len() == bag(counts.update(v, (counts[v] - 1) as usize)).len() + 1,
{
    broadcast use vstd::multiset::group_multiset_axioms;

    let less = counts.update(v, (counts[v] - 1) as usize);
    assert forall|w: usize| bag(counts).count(w) == bag(less).insert(v as usize).count(w) by {
        lemma_bag_count(counts, w);
        lemma_bag_count(less, w);
    }
    assert(bag(counts) =~= bag(less).insert(v as usize));
    vstd::multiset::lemma_insert_len(bag(less), v as usize);
}

/// A table that tallies every value of `s` stands for the multiset of `s`.
proof fn lemma_bag_of_tally(counts: Seq<usize>, s: Seq<usize>)
    requires
        counts.len() <= usize::MAX + 1,
        forall|i: int| 0 <= i < s.len() ==> s[i] < counts.len(),
        forall|v: int|
            0 <= v < counts.len() ==> #[trigger] counts[v] == s.to_multiset().count(v as usize),
    ensures
        bag(counts) == s.to_multiset(),
        bag(counts).len() == s.len(),
{
    broadcast use vstd::multiset::group_multiset_axioms;
    broadcast use vstd::seq_lib::group_to_multiset_ensures;

    assert forall|w: usize| bag(counts).count(w) == s.to_multiset().count(w) by {
        lemma_bag_count(counts, w);
        if w >= counts.len() {
            if s.to_multiset().count(w) > 0 {
                assert(s.contains(w));
                let i = choose|i: int| 0 <= i < s.len() && s[i] == w;
                assert(s[i] < counts.len());
            }
        }
    }
    assert(bag(counts) =~= s.to_multiset());
}

/// A step of the model keeps the invariant, the length and the content.
#[verifier::rlimit(50)]
pub proof fn lemma_counting_next(m: CountingModel, s: Seq<usize>)
    requires
        counting_inv(m, s),
    ensures
        counting_inv(counting_next(m, s).0, counting_next(m, s).1),
        counting_next(m, s).1.len() == s.len(),
        counting_content(counting_next(m, s).0, counting_next(m, s).1) == counting_content(m, s),
        m.status.comparisons <= counting_next(m, s).0.status.comparisons,
        m.status.swaps <= counting_next(m, s).0.status.swaps,
{
    broadcast use vstd::multiset::group_multiset_axioms;
    broadcast use vstd::seq_lib::group_to_multiset_ensures;

    let (m2, s2) = counting_next(m, s);
    let t = tallies(m);
    let t2 = tallies(m2);
    if m.status.finished || s.len() <= 1 {
    } else if m.phase == 0 {
        lemma_seq_max(s);
        assert(s.take(0) =~= Seq::<usize>::empty());
        assert forall|v: int| 0 <= v <= m2.max_value implies #[trigger] t2[v] == s.take(
            0,
        ).to_multiset().count(v as usize) by {
            lemma_count_le_len(s.take(0), v as usize);
        }
    } else if m.phase == 1 {
        if m.processing_index < s.len() {
            let i = m.processing_index;
            assert(s.take(i + 1) =~= s.take(i).push(s[i]));
            assert(s.take(i + 1).to_multiset() =~= s.take(i).to_multiset().insert(s[i]));
            lemma_count_le_len(s.take(i), s[i]);
            assert(t2 =~= t.update(s[i] as int, (t[s[i] as int] + 1) as usize));
            assert forall|v: int| 0 <= v <= m2.max_value implies #[trigger] t2[v] == s.take(
                i + 1,
            ).to_multiset().count(v as usize) by {
                assert(t[v] == s.take(i).to_multiset().count(v as usize));
            }
        } else {
            assert(s.take(m.processing_index) =~= s);
            lemma_bag_of_tally(t, s);
            assert(s.take(0) =~= Seq::<usize>::empty());
            assert(s.take(0).to_multiset().len() == 0);
            assert(s.take(0).to_multiset() =~= Multiset::<usize>::empty());
            assert(counting_content(m2, s2) =~= counting_content(m, s));
        }
    } else if m.phase == 2 {
        let v = m.current_value;
        if t[v] > 0 {
            let i = m.array_index;
            lemma_bag_take(t, v);
            assert(t2 =~= t.update(v, (t[v] - 1) as usize));
            assert(s2.take(i + 1) =~= s.take(i).push(v as usize));
            assert(s2.take(i + 1).to_multiset() =~= s.take(i).to_multiset().insert(v as usize));
            assert(counting_content(m2, s2) =~= counting_content(m, s));
            let front = s2.take(i + 1);
            assert forall|a: int, b: int| 0 <= a <= b < front.len() implies front[a]
                <= front[b] by {
                if b < i {
                    assert(s.take(i)[a] <= s.take(i)[b]);
                }
            }
            assert forall|w: int| 0 <= w < m2.current_value implies #[trigger] t2[w] == 0 by {
                assert(t[w] == 0);
            }
        } else if v < m.max_value {
            assert(s.take(m.array_index) =~= s2.take(m2.array_index));
            assert forall|w: int| 0 <= w < m2.current_value implies #[trigger] t2[w] == 0 by {
                if w < v {
                    assert(t[w] == 0);
                }
            }
        } else {
            assert forall|w: int| 0 <= w < t.len() implies #[trigger] t[w] == 0 by {
                if w < v {
                    assert(tallies(m)[w] == 0);
                }
            }
            lemma_bag_zero(t);
            assert(s.take(m.array_index) =~= s);
        }
    } else {
        lemma_bag_zero(t);
        assert(s.take(m.array_index) =~= s);
        assert(counting_content(m, s) =~= s.to_multiset());
    }
}

/// A finished run has left the sequence holding all its values.
proof fn lemma_counting_finished(m: CountingModel, s: Seq<usize>)
    requires
        counting_inv(m, s),
        m.status.finished,
    ensures
        counting_content(m, s) == s.to_multiset(),
{
    broadcast use vstd::multiset::group_multiset_axioms;

    if m.phase == 3 {
        lemma_bag_zero(tallies(m));
        assert(s.take(m.array_index) =~= s);
        assert(counting_content(m, s) =~= s.to_multiset());
    }
}

/// A bound on the steps that are left.
pub open spec fn counting_budget(m: CountingModel, s: Seq<usize>) -> nat {
    if m.status.finished {
        0
    } else {
        1 + at_least_zero(
            if m.phase == 0 {
                2 * s.len() + seq_max(s) + 4
            } else if m.phase == 1 {
                2 * s.len() - m.processing_index + m.max_value + 3
            } else if m.phase == 2 {
                s.len() - m.array_index + m.max_value + 2 - m.current_value
            } else {
                1
            },
        )
    }
}

/// Every step from a configuration that is not complete lowers the bound.
pub proof fn lemma_counting_progress(m: CountingModel, s: Seq<usize>)
    requires
        counting_inv(m, s),
        !m.status.finished,
    ensures
        counting_budget(counting_next(m, s).0, counting_next(m, s).1) < counting_budget(m, s),
{
    broadcast use vstd::multiset::group_multiset_axioms;

    if s.len() >= 2 {
        if m.phase == 2 && tallies(m)[m.current_value] > 0 {
            lemma_bag_take(tallies(m), m.current_value);
        }
    }
}

impl Sorter for CountingSort {
    open spec fn origin(m: CountingModel) -> CountingModel {
        counting_initial()
    }

    open spec fn status(m: CountingModel) -> Status {
        m.status
    }

    open spec fn inv(m: CountingModel, s: Seq<usize>) -> bool {
        counting_inv(m, s)
    }

    open spec fn content(m: CountingModel, s: Seq<usize>) -> Multiset<usize> {
        counting_content(m, s)
    }

    open spec fn step_spec(
        m: CountingModel,
        s: Seq<usize>,
        m2: CountingModel,
        s2: Seq<usize>,
    ) -> bool {
        (m2, s2) == counting_next(m, s)
    }

    open spec fn deterministic(m: CountingModel) -> bool {
        true
    }

    open spec fn budget(m: CountingModel, s: Seq<usize>) -> nat {
        counting_budget(m, s)
    }

    proof fn lemma_initial(m: CountingModel, s: Seq<usize>) {
    }

    proof fn lemma_origin(m: CountingModel) {
    }

    proof fn lemma_inv(m: CountingModel, s: Seq<usize>) {
        if m.status.finished {
            lemma_counting_finished(m, s);
        }
    }

    proof fn lemma_step(m: CountingModel, s: Seq<usize>, m2: CountingModel, s2: Seq<usize>) {
        lemma_counting_next(m, s);
    }

    proof fn lemma_progress(m: CountingModel, s: Seq<usize>, m2: CountingModel, s2: Seq<usize>) {
        lemma_counting_progress(m, s);
    }

    proof fn lemma_deterministic(
        m: CountingModel,
        s: Seq<usize>,
        m2: CountingModel,
        s2: Seq<usize>,
        m3: CountingModel,
        s3: Seq<usize>,
    ) {
    }

    fn new() -> (r: Self) {
        CountingSort {
            status: Status::new(),
            step_phase: 0,
            counts: Vec::new(),
            top_count: 0,
            max_value: 0,
            processing_index: 0,
            current_value: 0,
            array_index: 0,
        }
    }

    fn special(&self) -> (r: (usize, usize)) {
        self.status.special
    }

    fn reason(&self) -> (r: Reasons) {
        self.status.reason
    }

    fn step(&mut self, array: &mut Vec<usize>) -> (done: bool) {
        proof {
            if !self.status.finished {
                lemma_counting_progress(self@, array@);
            }
            lemma_counting_next(self@, array@);
            let (m2, s2) = counting_next(self@, array@);
            if m2.status.finished {
                lemma_counting_finished(m2, s2);
            }
        }
        if self.status.finished {
            return true;
        }
        if array.len() <= 1 {
            self.status = self.status.note_idle().note_finish();
            return true;
        }
        if self.step_phase == 0 {
            let max = largest(array);
            proof {
                lemma_seq_max(array@);
            }
            self.status = self.status.note_idle();
            self.max_value = max;
            self.counts = vec![0usize; max];
            self.top_count = 0;
            self.processing_index = 0;
            self.step_phase = 1;
            assert(self.counts@ =~= Seq::new(seq_max(array@) as nat, |v: int| 0usize));
        } else if self.step_phase == 1 {
            if self.processing_index < array.len() {
                let i = self.processing_index;
                let num = array[i];
                proof {
                    lemma_count_le_len(array@.take(i as int), num);
                    assert(tallies(self@)[num as int] == array@.take(
                        i as int,
                    ).to_multiset().count(num));
                }
                if num < self.max_value {
                    let tally = self.counts[num] + 1;
                    self.counts[num] = tally;
                } else {
                    self.top_count = self.top_count + 1;
                }
                self.status = self.status.note_visit(i, i, false);
                self.processing_index = i + 1;
            } else {
                self.status = self.status.note_idle();
                self.processing_index = 0;
                self.current_value = 0;
                self.step_phase = 2;
            }
        } else if self.step_phase == 2 {
            let v = self.current_value;
            let left = if v < self.max_value {
                self.counts[v]
            } else {
                self.top_count
            };
            if left > 0 {
                let i = self.array_index;
                proof {
                    lemma_bag_take(tallies(self@), v as int);
                }
                array[i] = v;
                if v < self.max_value {
                    self.counts[v] = left - 1;
                } else {
                    self.top_count = left - 1;
                }
                self.status = self.status.note_move(i, i);
                self.array_index = i + 1;
            } else if v < self.max_value {
                self.status = self.status.note_idle();
                self.current_value = v + 1;
            } else {
                self.status = self.status.note_idle();
                self.step_phase = 3;
            }
        } else {
            self.status = self.status.note_idle().note_finish();
        }
        self.status.finished
    }

    fn reset_state(&mut self) {
        self.status = Status::new();
        self.counts = Vec::new();
        self.top_count = 0;
        self.max_value = 0;
        self.current_value = 0;
        self.array_index = 0;
        self.processing_index = 0;
        self.step_phase = 0;
    }

    fn is_finished(&self) -> (r: bool) {
        self.status.finished
    }

    fn comparisons(&self) -> (r: usize) {
        self.status.comparisons
    }

    fn swaps(&self) -> (r: usize) {
        self.status.swaps
    }
}

/// The largest value of `array`, or 0 where it is empty.
fn largest(array: &Vec<usize>) -> (max: usize)
    ensures
        max == seq_max(array@),
{
    let mut max: usize = 0;
    let mut i: usize = 0;
    while i < array.len()
        invariant
            i <= array@.len(),
            max == seq_max(array@.take(i as int)),
        decreases array@.len() - i,
    {
        assert(array@.take(i + 1).drop_last() =~= array@.take(i as int));
        if array[i] > max {
            max = array[i];
        }
        i = i + 1;
    }
    assert(array@.take(i as int) =~= array@);
    max
}

} // verus!
