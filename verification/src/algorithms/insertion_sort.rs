//! Insertion sort: each value in turn is carried left through the sorted
//! part before it, one neighbour per step, until it is in place.

use super::potential::{
    inversions, lemma_neighbours_exchange_inversions, lemma_sorted_no_inversions,
};
use super::runs::{
    counted, counts_inversion, is_run, lemma_exchanges_counted, lemma_run_point,
    step_counts_inversion,
};
use super::at_least_zero;
use super::potential::lemma_products;
use super::{
    exchange, highlight_valid, lemma_exchange, sorted, sorted_range, swap, Reasons, Sorter, Status,
};
use vstd::multiset::Multiset;
use vstd::prelude::*;

verus! {

/// The state of an insertion sort between two steps.
pub struct InsertionSort {
    status: Status,
    current_index: usize,
    sorted_index: usize,
}

/// The configuration of an insertion sort.
///
/// The value that began at `current_index` is being inserted into the
/// positions before it and is now at `sorted_index`.
pub struct InsertionModel {
    pub status: Status,
    pub current_index: int,
    pub sorted_index: int,
}

impl View for InsertionSort {
    type V = InsertionModel;

    closed spec fn view(&self) -> InsertionModel {
        InsertionModel {
            status: self.status,
            current_index: self.current_index as int,
            sorted_index: self.sorted_index as int,
        }
    }
}

/// The configuration before the first step.
pub open spec fn insertion_initial() -> InsertionModel {
    InsertionModel { status: Status::fresh(), current_index: 1, sorted_index: 1 }
}

/// One step of the sort.
///
/// A sequence of fewer than two values is complete at once, and so is the
/// sort when every value has been inserted. Otherwise a step looks at the
/// value being inserted and its left neighbour. Out of order, the two are
/// exchanged: the insertion goes on from the lower position. In order, or
/// at the first position, the value is in place, and the next value is
/// taken up. Both count as switching: the one moves the value, the other
/// places it.
pub open spec fn insertion_next(m: InsertionModel, s: Seq<usize>) -> (InsertionModel, Seq<usize>) {
    if m.status.finished {
        (m, s)
    } else if s.len() <= 1 || m.current_index >= s.len() {
        (InsertionModel { status: m.status.idle().finish(), ..m }, s)
    } else {
        let j = m.sorted_index;
        if j > 0 && s[j - 1] > s[j] {
            (
                InsertionModel {
                    status: m.status.record(j - 1, j, Reasons::Switching, 1, 1),
                    sorted_index: j - 1,
                    ..m
                },
                exchange(s, j - 1, j),
            )
        } else if j > 0 {
            (
                InsertionModel {
                    status: m.status.record(j - 1, j, Reasons::Switching, 1, 0),
                    current_index: m.current_index + 1,
                    sorted_index: m.current_index + 1,
                },
                s,
            )
        } else {
            (
                InsertionModel {
                    status: m.status.record(0, 0, Reasons::Switching, 0, 0),
                    current_index: m.current_index + 1,
                    sorted_index: m.current_index + 1,
                },
                s,
            )
        }
    }
}

/// The configurations that a run over `s` can be in.
pub open spec fn insertion_inv(m: InsertionModel, s: Seq<usize>) -> bool {
    &&& s.len() <= usize::MAX
    &&& highlight_valid(m.status.special, s.len())
    &&& m.status.finished ==> sorted(s)
    &&& 0 <= m.sorted_index
    &&& 1 <= m.current_index
    &&& !m.status.finished && s.len() >= 2 ==> {
        &&& m.current_index <= s.len()
        &&& m.current_index == s.len() ==> sorted(s)
        &&& m.current_index < s.len() ==> {
            &&& m.sorted_index <= m.current_index
            &&& forall|i: int, j: int|
                0 <= i <= j <= m.current_index && i != m.sorted_index && j != m.sorted_index
                    ==> s[i] <= s[j]
            &&& forall|j: int|
                m.sorted_index < j <= m.current_index ==> s[m.sorted_index] <= #[trigger] s[j]
        }
    }
}

/// A step of the model keeps the invariant, the length and the values.
pub proof fn lemma_insertion_next(m: InsertionModel, s: Seq<usize>)
    requires
        insertion_inv(m, s),
    ensures
        insertion_inv(insertion_next(m, s).0, insertion_next(m, s).1),
        insertion_next(m, s).1.len() == s.len(),
        insertion_next(m, s).1.to_multiset() == s.to_multiset(),
        m.status.comparisons <= insertion_next(m, s).0.status.comparisons,
        m.status.swaps <= insertion_next(m, s).0.status.swaps,
{
    if !m.status.finished && s.len() >= 2 && m.current_index < s.len() {
        let j = m.sorted_index;
        if j > 0 && s[j - 1] > s[j] {
            lemma_exchange(s, j - 1, j);
        } else {
            assert forall|a: int, b: int| 0 <= a <= b <= m.current_index implies s[a] <= s[b] by {
                if a == j && b > j {
                } else if b == j && a < j {
                    assert(s[a] <= s[j - 1]);
                }
            }
        }
    }
}

/// A bound on the steps that are left.
pub open spec fn insertion_budget(m: InsertionModel, s: Seq<usize>) -> nat {
    if m.status.finished {
        0
    } else {
        1 + at_least_zero((s.len() - m.current_index) * (s.len() + 1) + m.sorted_index + 1)
    }
}

/// Every step from a configuration that is not complete lowers the bound.
pub proof fn lemma_insertion_progress(m: InsertionModel, s: Seq<usize>)
    requires
        insertion_inv(m, s),
        !m.status.finished,
    ensures
        insertion_budget(insertion_next(m, s).0, insertion_next(m, s).1) < insertion_budget(m, s),
{
    if s.len() >= 2 && m.current_index < s.len() {
        lemma_products(s.len() - m.current_index, s.len() - m.current_index, s.len() as int + 1);
        lemma_products(s.len() - m.current_index - 1, s.len() - m.current_index, s.len() as int + 1);
    }
}

/// A step either leaves the sequence and the counter of exchanges as they
/// are, or takes one inversion out of the sequence and counts one exchange.
pub proof fn lemma_insertion_step_swaps(m: InsertionModel, s: Seq<usize>)
    requires
        insertion_inv(m, s),
    ensures
        counts_inversion(
            m.status.swaps,
            s,
            insertion_next(m, s).0.status.swaps,
            insertion_next(m, s).1,
        ),
{
    if !m.status.finished && s.len() >= 2 && m.current_index < s.len() && m.sorted_index > 0 {
        lemma_neighbours_exchange_inversions(s, m.sorted_index - 1);
    }
}

/// At every point of a run of an insertion sort that began with a machine that had
/// not run yet, the counter of exchanges shows the number of inversions
/// that the sequence has lost since.
pub proof fn lemma_insertion_swaps(ms: Seq<InsertionModel>, ss: Seq<Seq<usize>>, k: int)
    requires
        is_run::<InsertionSort>(ms, ss),
        ms[0] == insertion_initial(),
        0 <= k < ms.len(),
    ensures
        inversions(ss[k]) <= inversions(ss[0]),
        ms[k].status.swaps == counted(inversions(ss[0]) - inversions(ss[k])),
{
    assert forall|j: int| 0 <= j < ms.len() - 1 implies #[trigger] step_counts_inversion::<InsertionSort>(
        ms,
        ss,
        j,
    ) by {
        lemma_run_point::<InsertionSort>(ms, ss, j);
        assert(InsertionSort::step_spec(ms[j], ss[j], ms[j + 1], ss[j + 1]));
        lemma_insertion_step_swaps(ms[j], ss[j]);
    }
    lemma_exchanges_counted::<InsertionSort>(ms, ss, k);
}

/// When an insertion sort that began with a machine that had not run yet is
/// finished, its counter of exchanges shows the number of inversions of the
/// sequence that it began with.
pub proof fn lemma_insertion_counts_inversions(ms: Seq<InsertionModel>, ss: Seq<Seq<usize>>)
    requires
        is_run::<InsertionSort>(ms, ss),
        ms[0] == insertion_initial(),
        ms.last().status.finished,
    ensures
        ms.last().status.swaps == counted(inversions(ss[0]) as int),
{
    let k = ms.len() - 1;
    lemma_insertion_swaps(ms, ss, k);
    lemma_run_point::<InsertionSort>(ms, ss, k);
    assert(sorted(ss[k]));
    lemma_sorted_no_inversions(ss[k]);
}

impl InsertionSort {
    /// A machine that has not run yet.
    pub fn new() -> (r: Self)
        ensures
            r@ == insertion_initial(),
    {
        InsertionSort { status: Status::new(), current_index: 1, sorted_index: 1 }
    }
}

impl Sorter for InsertionSort {
    open spec fn origin(m: InsertionModel) -> InsertionModel {
        insertion_initial()
    }

    open spec fn status(m: InsertionModel) -> Status {
        m.status
    }

    open spec fn inv(m: InsertionModel, s: Seq<usize>) -> bool {
        insertion_inv(m, s)
    }

    open spec fn content(m: InsertionModel, s: Seq<usize>) -> Multiset<usize> {
        s.to_multiset()
    }

    open spec fn step_spec(m: InsertionModel, s: Seq<usize>, m2: InsertionModel, s2: Seq<usize>) -> bool {
        (m2, s2) == insertion_next(m, s)
    }

    open spec fn deterministic(m: InsertionModel) -> bool {
        true
    }

    open spec fn budget(m: InsertionModel, s: Seq<usize>) -> nat {
        insertion_budget(m, s)
    }

    proof fn lemma_initial(m: InsertionModel, s: Seq<usize>) {
    }

    proof fn lemma_origin(m: InsertionModel) {
    }

    proof fn lemma_inv(m: InsertionModel, s: Seq<usize>) {
    }

    proof fn lemma_step(m: InsertionModel, s: Seq<usize>, m2: InsertionModel, s2: Seq<usize>) {
        lemma_insertion_next(m, s);
    }

    proof fn lemma_progress(m: InsertionModel, s: Seq<usize>, m2: InsertionModel, s2: Seq<usize>) {
        lemma_insertion_progress(m, s);
    }

    proof fn lemma_deterministic(
        m: InsertionModel,
        s: Seq<usize>,
        m2: InsertionModel,
        s2: Seq<usize>,
        m3: InsertionModel,
        s3: Seq<usize>,
    ) {
    }

    fn new() -> (r: Self) {
        InsertionSort::new()
    }

    fn special(&self) -> (r: (usize, usize)) {
        self.status.special
    }

    fn reason(&self) -> (r: Reasons) {
        self.status.reason
    }

    fn step(&mut self, array: &mut Vec<usize>) -> (done: bool) {
        proof {
            if !self.status.finished {
                lemma_insertion_progress(self@, array@);
            }
            lemma_insertion_next(self@, array@);
        }
        if self.status.finished {
            return true;
        }
        if array.len() <= 1 {
            self.status = self.status.note_idle().note_finish();
            return true;
        }
        if self.current_index >= array.len() {
            self.status = self.status.note_idle().note_finish();
        } else {
            let j = self.sorted_index;
            if j > 0 && array[j - 1] > array[j] {
                swap(array, j - 1, j);
                self.status = self.status.note(j - 1, j, Reasons::Switching, 1, 1);
                self.sorted_index = j - 1;
            } else if j > 0 {
                self.status = self.status.note(j - 1, j, Reasons::Switching, 1, 0);
                self.current_index = self.current_index + 1;
                self.sorted_index = self.current_index;
            } else {
                self.status = self.status.note(0, 0, Reasons::Switching, 0, 0);
                self.current_index = self.current_index + 1;
                self.sorted_index = self.current_index;
            }
        }
        self.status.finished
    }

    fn reset_state(&mut self) {
        *self = InsertionSort::new();
    }

    fn is_finished(&self) -> (r: bool) {
        self.status.finished
    }

    fn comparisons(&self) -> (r: usize) {
        self.status.comparisons
    }

    fn swaps(&self) -> (r: usize) {
        self.status.swaps
    }
}

} // verus!
