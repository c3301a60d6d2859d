//! Selection sort: each step finds the smallest value of the unsorted
//! part and exchanges it with the first value of that part.

use super::at_least_zero;
use super::{
    exchange, highlight_valid, lemma_exchange, sorted, sorted_range, swap, Reasons, Sorter, Status,
};
use vstd::multiset::Multiset;
use vstd::prelude::*;

verus! {

/// The state of a selection sort between two steps.
pub struct SelectionSort {
    status: Status,
    current_index: usize,
    min_index: usize,
}

/// The configuration of a selection sort.
///
/// The positions before `current_index` are settled; `min_index` is where
/// the last step found its smallest value.
pub struct SelectionModel {
    pub status: Status,
    pub current_index: int,
    pub min_index: int,
}

impl View for SelectionSort {
    type V = SelectionModel;

    closed spec fn view(&self) -> SelectionModel {
        SelectionModel {
            status: self.status,
            current_index: self.current_index as int,
            min_index: self.min_index as int,
        }
    }
}

/// The configuration before the first step.
pub open spec fn selection_initial() -> SelectionModel {
    SelectionModel { status: Status::fresh(), current_index: 0, min_index: 0 }
}

/// The first position of the smallest value among the positions from `lo`
/// to `hi`.
pub open spec fn first_min(s: Seq<usize>, lo: int, hi: int) -> int
    decreases hi - lo,
{
    if hi <= lo {
        lo
    } else if s[hi] < s[first_min(s, lo, hi - 1)] {
        hi
    } else {
        first_min(s, lo, hi - 1)
    }
}

/// One step of the sort.
///
/// A sequence of fewer than two values is complete at once, and so is the
/// sort when every position is settled. Otherwise a step scans the
/// unsorted part, with one comparison for each value after its first, and
/// exchanges the first of its smallest values with the value at
/// `current_index`; where that is already the smallest, nothing is
/// exchanged and the step counts as comparing.
pub open spec fn selection_next(m: SelectionModel, s: Seq<usize>) -> (SelectionModel, Seq<usize>) {
    if m.status.finished {
        (m, s)
    } else if s.len() <= 1 || m.current_index >= s.len() {
        (SelectionModel { status: m.status.idle().finish(), ..m }, s)
    } else {
        let i = m.current_index;
        let k = first_min(s, i, s.len() - 1);
        (
            SelectionModel {
                status: m.status.after_work(
                    i,
                    k,
                    (s.len() - 1 - i) as nat,
                    if k != i {
                        1
                    } else {
                        0
                    },
                ),
                current_index: i + 1,
                min_index: k,
            },
            exchange(s, i, k),
        )
    }
}

/// The configurations that a run over `s` can be in.
pub open spec fn selection_inv(m: SelectionModel, s: Seq<usize>) -> bool {
    &&& s.len() <= usize::MAX
    &&& highlight_valid(m.status.special, s.len())
    &&& m.status.finished ==> sorted(s)
    &&& 0 <= m.current_index
    &&& 0 <= m.min_index
    &&& !m.status.finished && s.len() >= 2 ==> {
        &&& m.current_index <= s.len()
        &&& forall|i: int, j: int| 0 <= i < j < s.len() && i < m.current_index ==> s[i] <= s[j]
    }
}

/// The first smallest value lies in its range and is at most every value
/// of it.
pub proof fn lemma_first_min(s: Seq<usize>, lo: int, hi: int)
    requires
        0 <= lo <= hi < s.len(),
    ensures
        lo <= first_min(s, lo, hi) <= hi,
        forall|k: int| lo <= k <= hi ==> s[first_min(s, lo, hi)] <= #[trigger] s[k],
    decreases hi - lo,
{
    if hi > lo {
        lemma_first_min(s, lo, hi - 1);
    }
}

/// A step of the model keeps the invariant, the length and the values.
pub proof fn lemma_selection_next(m: SelectionModel, s: Seq<usize>)
    requires
        selection_inv(m, s),
    ensures
        selection_inv(selection_next(m, s).0, selection_next(m, s).1),
        selection_next(m, s).1.len() == s.len(),
        selection_next(m, s).1.to_multiset() == s.to_multiset(),
        m.status.comparisons <= selection_next(m, s).0.status.comparisons,
        m.status.swaps <= selection_next(m, s).0.status.swaps,
{
    if !m.status.finished && s.len() >= 2 && m.current_index < s.len() {
        let i = m.current_index;
        lemma_first_min(s, i, s.len() - 1);
        lemma_exchange(s, i, first_min(s, i, s.len() - 1));
    }
}

/// A bound on the steps that are left.
pub open spec fn selection_budget(m: SelectionModel, s: Seq<usize>) -> nat {
    if m.status.finished {
        0
    } else {
        1 + at_least_zero(1 + s.len() - m.current_index)
    }
}

/// Every step from a configuration that is not complete lowers the bound.
pub proof fn lemma_selection_progress(m: SelectionModel, s: Seq<usize>)
    requires
        selection_inv(m, s),
        !m.status.finished,
    ensures
        selection_budget(selection_next(m, s).0, selection_next(m, s).1) < selection_budget(m, s),
{
    if s.len() >= 2 && m.current_index < s.len() {
        lemma_first_min(s, m.current_index, s.len() - 1);
    }
}

impl SelectionSort {
    /// A machine that has not run yet.
    pub fn new() -> (r: Self)
        ensures
            r@ == selection_initial(),
    {
        SelectionSort { status: Status::new(), current_index: 0, min_index: 0 }
    }
}

impl Sorter for SelectionSort {
    open spec fn origin(m: SelectionModel) -> SelectionModel {
        selection_initial()
    }

    open spec fn status(m: SelectionModel) -> Status {
        m.status
    }

    open spec fn inv(m: SelectionModel, s: Seq<usize>) -> bool {
        selection_inv(m, s)
    }

    open spec fn content(m: SelectionModel, s: Seq<usize>) -> Multiset<usize> {
        s.to_multiset()
    }

    open spec fn step_spec(m: SelectionModel, s: Seq<usize>, m2: SelectionModel, s2: Seq<usize>) -> bool {
        (m2, s2) == selection_next(m, s)
    }

    open spec fn deterministic(m: SelectionModel) -> bool {
        true
    }

    open spec fn budget(m: SelectionModel, s: Seq<usize>) -> nat {
        selection_budget(m, s)
    }

    proof fn lemma_initial(m: SelectionModel, s: Seq<usize>) {
    }

    proof fn lemma_origin(m: SelectionModel) {
    }

    proof fn lemma_inv(m: SelectionModel, s: Seq<usize>) {
    }

    proof fn lemma_step(m: SelectionModel, s: Seq<usize>, m2: SelectionModel, s2: Seq<usize>) {
        lemma_selection_next(m, s);
    }

    proof fn lemma_progress(m: SelectionModel, s: Seq<usize>, m2: SelectionModel, s2: Seq<usize>) {
        lemma_selection_progress(m, s);
    }

    proof fn lemma_deterministic(
        m: SelectionModel,
        s: Seq<usize>,
        m2: SelectionModel,
        s2: Seq<usize>,
        m3: SelectionModel,
        s3: Seq<usize>,
    ) {
    }

    fn new() -> (r: Self) {
        SelectionSort::new()
    }

    fn special(&self) -> (r: (usize, usize)) {
        self.status.special
    }

    fn reason(&self) -> (r: Reasons) {
        self.status.reason
    }

    fn step(&mut self, array: &mut Vec<usize>) -> (done: bool) {
        proof {
            if !self.status.finished {
                lemma_selection_progress(self@, array@);
            }
            lemma_selection_next(self@, array@);
        }
        if self.status.finished {
            return true;
        }
        if array.len() <= 1 {
            self.status = self.status.note_idle().note_finish();
            return true;
        }
        if self.current_index >= array.len() {
            self.status = self.status.note_idle().note_finish();
        } else {
            let i = self.current_index;
            let n = array.len();
            let mut k = i;
            let mut j = i + 1;
            while j < n
                invariant
                    i < j <= n,
                    n == array@.len(),
                    i <= k < j,
                    k == first_min(array@, i as int, j - 1),
                decreases n - j,
            {
                if array[j] < array[k] {
                    k = j;
                }
                j = j + 1;
            }
            swap(array, i, k);
            self.status = self.status.note_work(
                i,
                k,
                n - 1 - i,
                if k != i {
                    1
                } else {
                    0
                },
            );
            self.current_index = i + 1;
            self.min_index = k;
        }
        self.status.finished
    }

    fn reset_state(&mut self) {
        *self = SelectionSort::new();
    }

    fn is_finished(&self) -> (r: bool) {
        self.status.finished
    }

    fn comparisons(&self) -> (r: usize) {
        self.status.comparisons
    }

    fn swaps(&self) -> (r: usize) {
        self.status.swaps
    }
}

} // verus!
