//! Bubble sort: passes from the front that carry the largest value of the
//! unsettled part to its end.

use super::potential::{
    inversions, lemma_neighbours_exchange_inversions, lemma_sorted_no_inversions,
};
use super::runs::{
    counted, counts_inversion, is_run, lemma_exchanges_counted, lemma_run_point,
    step_counts_inversion,
};
use super::at_least_zero;
use super::potential::lemma_products;
use super::{
    exchange, highlight_valid, lemma_exchange, sorted, sorted_range, swap, Reasons, Sorter, Status,
};
use vstd::multiset::Multiset;
use vstd::prelude::*;

verus! {

/// The state of a bubble sort between two steps.
pub struct BubbleSort {
    status: Status,
    pass: usize,
    index: usize,
    swapped: bool,
}

/// The configuration of a bubble sort.
///
/// `pass` counts the completed passes, each of which has settled one more
/// position at the end. `index` is the left position of the next pair, and
/// `swapped` says whether the current pass has exchanged anything.
pub struct BubbleModel {
    pub status: Status,
    pub pass: int,
    pub index: int,
    pub swapped: bool,
}

impl View for BubbleSort {
    type V = BubbleModel;

    closed spec fn view(&self) -> BubbleModel {
        BubbleModel {
            status: self.status,
            pass: self.pass as int,
            index: self.index as int,
            swapped: self.swapped,
        }
    }
}

/// The configuration before the first step.
pub open spec fn bubble_initial() -> BubbleModel {
    BubbleModel { status: Status::fresh(), pass: 0, index: 0, swapped: false }
}

/// One step of the sort.
///
/// A sequence of fewer than two values is complete at once. Within a pass a
/// step compares the pair at `index` and exchanges it if it is out of
/// order. At the end of a pass a step of its own either marks the sort
/// complete, if the pass exchanged nothing, or begins the next pass, which
/// stops one position earlier.
pub open spec fn bubble_next(m: BubbleModel, s: Seq<usize>) -> (BubbleModel, Seq<usize>) {
    if m.status.finished {
        (m, s)
    } else if s.len() <= 1 {
        (BubbleModel { status: m.status.idle().finish(), ..m }, s)
    } else if m.index < s.len() - 1 - m.pass {
        let i = m.index;
        let out = s[i] > s[i + 1];
        (
            BubbleModel {
                status: m.status.after_visit(i, i + 1, out),
                index: i + 1,
                swapped: m.swapped || out,
                ..m
            },
            if out {
                exchange(s, i, i + 1)
            } else {
                s
            },
        )
    } else if !m.swapped {
        (BubbleModel { status: m.status.idle().finish(), ..m }, s)
    } else {
        (BubbleModel { status: m.status.idle(), pass: m.pass + 1, index: 0, swapped: false }, s)
    }
}

/// The configurations that a run over `s` can be in.
pub open spec fn bubble_inv(m: BubbleModel, s: Seq<usize>) -> bool {
    &&& s.len() <= usize::MAX
    &&& highlight_valid(m.status.special, s.len())
    &&& m.status.finished ==> sorted(s)
    &&& 0 <= m.pass
    &&& 0 <= m.index
    &&& !m.status.finished && s.len() >= 2 ==> {
        &&& m.index <= s.len() - 1 - m.pass
        &&& m.index == 0 ==> !m.swapped
        &&& forall|i: int, j: int| 0 <= i < j < s.len() && s.len() - 1 - m.pass < j ==> s[i] <= s[j]
        &&& forall|k: int| 0 <= k < m.index ==> #[trigger] s[k] <= s[m.index]
        &&& !m.swapped ==> sorted_range(s, 0, m.index)
    }
}

/// A step of the model keeps the invariant, the length and the values.
pub proof fn lemma_bubble_next(m: BubbleModel, s: Seq<usize>)
    requires
        bubble_inv(m, s),
    ensures
        bubble_inv(bubble_next(m, s).0, bubble_next(m, s).1),
        bubble_next(m, s).1.len() == s.len(),
        bubble_next(m, s).1.to_multiset() == s.to_multiset(),
        m.status.comparisons <= bubble_next(m, s).0.status.comparisons,
        m.status.swaps <= bubble_next(m, s).0.status.swaps,
{
    if !m.status.finished && s.len() >= 2 {
        if m.index < s.len() - 1 - m.pass {
            lemma_exchange(s, m.index, m.index + 1);
        }
    }
}

/// A bound on the steps that are left.
pub open spec fn bubble_budget(m: BubbleModel, s: Seq<usize>) -> nat {
    if m.status.finished {
        0
    } else {
        1 + at_least_zero((s.len() - m.pass) * (s.len() + 1) - m.index)
    }
}

/// Every step from a configuration that is not complete lowers the bound.
pub proof fn lemma_bubble_progress(m: BubbleModel, s: Seq<usize>)
    requires
        bubble_inv(m, s),
        !m.status.finished,
    ensures
        bubble_budget(bubble_next(m, s).0, bubble_next(m, s).1) < bubble_budget(m, s),
{
    if s.len() >= 2 {
        lemma_products(s.len() - m.pass, s.len() - m.pass, s.len() as int + 1);
        lemma_products(s.len() - m.pass - 1, s.len() - m.pass, s.len() as int + 1);
    }
}

/// A step either leaves the sequence and the counter of exchanges as they
/// are, or takes one inversion out of the sequence and counts one exchange.
pub proof fn lemma_bubble_step_swaps(m: BubbleModel, s: Seq<usize>)
    requires
        bubble_inv(m, s),
    ensures
        counts_inversion(
            m.status.swaps,
            s,
            bubble_next(m, s).0.status.swaps,
            bubble_next(m, s).1,
        ),
{
    if !m.status.finished && s.len() >= 2 && m.index < s.len() - 1 - m.pass {
        lemma_neighbours_exchange_inversions(s, m.index);
    }
}

/// At every point of a run of a bubble sort that began with a machine that had
/// not run yet, the counter of exchanges shows the number of inversions
/// that the sequence has lost since.
pub proof fn lemma_bubble_swaps(ms: Seq<BubbleModel>, ss: Seq<Seq<usize>>, k: int)
    requires
        is_run::<BubbleSort>(ms, ss),
        ms[0] == bubble_initial(),
        0 <= k < ms.len(),
    ensures
        inversions(ss[k]) <= inversions(ss[0]),
        ms[k].status.swaps == counted(inversions(ss[0]) - inversions(ss[k])),
{
    assert forall|j: int| 0 <= j < ms.len() - 1 implies #[trigger] step_counts_inversion::<BubbleSort>(
        ms,
        ss,
        j,
    ) by {
        lemma_run_point::<BubbleSort>(ms, ss, j);
        assert(BubbleSort::step_spec(ms[j], ss[j], ms[j + 1], ss[j + 1]));
        lemma_bubble_step_swaps(ms[j], ss[j]);
    }
    lemma_exchanges_counted::<BubbleSort>(ms, ss, k);
}

/// When a bubble sort that began with a machine that had not run yet is
/// finished, its counter of exchanges shows the number of inversions of the
/// sequence that it began with.
pub proof fn lemma_bubble_counts_inversions(ms: Seq<BubbleModel>, ss: Seq<Seq<usize>>)
    requires
        is_run::<BubbleSort>(ms, ss),
        ms[0] == bubble_initial(),
        ms.last().status.finished,
    ensures
        ms.last().status.swaps == counted(inversions(ss[0]) as int),
{
    let k = ms.len() - 1;
    lemma_bubble_swaps(ms, ss, k);
    lemma_run_point::<BubbleSort>(ms, ss, k);
    assert(sorted(ss[k]));
    lemma_sorted_no_inversions(ss[k]);
}

impl BubbleSort {
    /// A machine that has not run yet.
    pub fn new() -> (r: Self)
        ensures
            r@ == bubble_initial(),
    {
        BubbleSort { status: Status::new(), pass: 0, index: 0, swapped: false }
    }
}

impl Sorter for BubbleSort {
    open spec fn origin(m: BubbleModel) -> BubbleModel {
        bubble_initial()
    }

    open spec fn status(m: BubbleModel) -> Status {
        m.status
    }

    open spec fn inv(m: BubbleModel, s: Seq<usize>) -> bool {
        bubble_inv(m, s)
    }

    open spec fn content(m: BubbleModel, s: Seq<usize>) -> Multiset<usize> {
        s.to_multiset()
    }

    open spec fn step_spec(m: BubbleModel, s: Seq<usize>, m2: BubbleModel, s2: Seq<usize>) -> bool {
        (m2, s2) == bubble_next(m, s)
    }

    open spec fn deterministic(m: BubbleModel) -> bool {
        true
    }

    open spec fn budget(m: BubbleModel, s: Seq<usize>) -> nat {
        bubble_budget(m, s)
    }

    proof fn lemma_initial(m: BubbleModel, s: Seq<usize>) {
    }

    proof fn lemma_origin(m: BubbleModel) {
    }

    proof fn lemma_inv(m: BubbleModel, s: Seq<usize>) {
    }

    proof fn lemma_step(m: BubbleModel, s: Seq<usize>, m2: BubbleModel, s2: Seq<usize>) {
        lemma_bubble_next(m, s);
    }

    proof fn lemma_progress(m: BubbleModel, s: Seq<usize>, m2: BubbleModel, s2: Seq<usize>) {
        lemma_bubble_progress(m, s);
    }

    proof fn lemma_deterministic(
        m: BubbleModel,
        s: Seq<usize>,
        m2: BubbleModel,
        s2: Seq<usize>,
        m3: BubbleModel,
        s3: Seq<usize>,
    ) {
    }

    fn new() -> (r: Self) {
        BubbleSort::new()
    }

    fn special(&self) -> (r: (usize, usize)) {
        self.status.special
    }

    fn reason(&self) -> (r: Reasons) {
        self.status.reason
    }

    fn step(&mut self, array: &mut Vec<usize>) -> (done: bool) {
        proof {
            if !self.status.finished {
                lemma_bubble_progress(self@, array@);
            }
            lemma_bubble_next(self@, array@);
        }
        if self.status.finished {
            return true;
        }
        if array.len() <= 1 {
            self.status = self.status.note_idle().note_finish();
            return true;
        }
        if self.index < array.len() - 1 - self.pass {
            let i = self.index;
            let out = array[i] > array[i + 1];
            if out {
                swap(array, i, i + 1);
            }
            self.status = self.status.note_visit(i, i + 1, out);
            self.index = i + 1;
            self.swapped = self.swapped || out;
        } else if !self.swapped {
            self.status = self.status.note_idle().note_finish();
        } else {
            self.status = self.status.note_idle();
            self.pass = self.pass + 1;
            self.index = 0;
            self.swapped = false;
        }
        self.status.finished
    }

    fn reset_state(&mut self) {
        *self = BubbleSort::new();
    }

    fn is_finished(&self) -> (r: bool) {
        self.status.finished
    }

    fn comparisons(&self) -> (r: usize) {
        self.status.comparisons
    }

    fn swaps(&self) -> (r: usize) {
        self.status.swaps
    }
}

} // verus!
