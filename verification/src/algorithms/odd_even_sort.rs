//! Odd-even sort: phases that visit the pairs starting at odd positions
//! and those starting at even positions in turn.

use super::potential::{
    inversions, lemma_neighbours_exchange_inversions, lemma_sorted_no_inversions,
};
use super::runs::{
    counted, counts_inversion, is_run, lemma_exchanges_counted, lemma_run_point,
    step_counts_inversion,
};
use super::at_least_zero;
use super::potential::{
    disorder, lemma_disorder_bounds, lemma_disorder_exchange, lemma_exchange_lowers_disorder,
    lemma_exchange_raises_disorder, lemma_products,
};
use super::{
    exchange, highlight_valid, lemma_adjacent_sorted, lemma_exchange, sorted, swap, Reasons, Sorter,
    Status,
};
use vstd::multiset::Multiset;
use vstd::prelude::*;

verus! {

/// The state of an odd-even sort between two steps.
pub struct OddEvenSort {
    status: Status,
    is_sorted: bool,
    odd_phase: bool,
    i: usize,
}

/// The configuration of an odd-even sort.
///
/// `odd_phase` says whether the current phase visits the pairs that start
/// at odd positions, and `i` is the left position of its next pair.
/// `is_sorted` says that the phase before this one was a whole phase and
/// that this one has exchanged nothing so far.
pub struct OddEvenModel {
    pub status: Status,
    pub is_sorted: bool,
    pub odd_phase: bool,
    pub i: int,
}

impl View for OddEvenSort {
    type V = OddEvenModel;

    closed spec fn view(&self) -> OddEvenModel {
        OddEvenModel {
            status: self.status,
            is_sorted: self.is_sorted,
            odd_phase: self.odd_phase,
            i: self.i as int,
        }
    }
}

/// The configuration before the first step.
pub open spec fn odd_even_initial() -> OddEvenModel {
    OddEvenModel { status: Status::fresh(), is_sorted: false, odd_phase: true, i: 1 }
}

/// The comparison of the pair at `m.i`, where the phase has one left.
pub open spec fn odd_even_visit(m: OddEvenModel, s: Seq<usize>) -> (OddEvenModel, Seq<usize>) {
    if m.i < s.len() - 1 {
        let out = s[m.i] > s[m.i + 1];
        (
            OddEvenModel {
                status: m.status.after_visit(m.i, m.i + 1, out),
                is_sorted: m.is_sorted && !out,
                i: m.i + 2,
                ..m
            },
            if out {
                exchange(s, m.i, m.i + 1)
            } else {
                s
            },
        )
    } else {
        (OddEvenModel { status: m.status.idle(), ..m }, s)
    }
}

/// One step of the sort.
///
/// A sequence of fewer than two values is complete at once. A step
/// compares the next pair of the phase and exchanges it if it is out of
/// order. Where the phase has no pair left, the step first either marks the
/// sort complete, if the phase exchanged nothing and followed a whole
/// phase, or turns to the other phase and compares its first pair.
pub open spec fn odd_even_next(m: OddEvenModel, s: Seq<usize>) -> (OddEvenModel, Seq<usize>) {
    if m.status.finished {
        (m, s)
    } else if s.len() <= 1 {
        (OddEvenModel { status: m.status.idle().finish(), ..m }, s)
    } else if m.i >= s.len() - 1 {
        if m.is_sorted {
            (OddEvenModel { status: m.status.idle().finish(), ..m }, s)
        } else {
            odd_even_visit(
                OddEvenModel {
                    status: m.status,
                    is_sorted: true,
                    odd_phase: !m.odd_phase,
                    i: if m.odd_phase {
                        0
                    } else {
                        1
                    },
                },
                s,
            )
        }
    } else {
        odd_even_visit(m, s)
    }
}

/// The configurations that a run over `s` can be in.
pub open spec fn odd_even_inv(m: OddEvenModel, s: Seq<usize>) -> bool {
    &&& s.len() <= usize::MAX
    &&& highlight_valid(m.status.special, s.len())
    &&& m.status.finished ==> sorted(s)
    &&& 0 <= m.i
    &&& !m.status.finished && s.len() >= 2 ==> {
        &&& m.i <= s.len()
        &&& m.i % 2 == if m.odd_phase {
            1int
        } else {
            0int
        }
        &&& forall|k: int, l: int|
            0 <= k < m.i && k % 2 == m.i % 2 && l == k + 1 && l < s.len() ==> s[k] <= s[l]
        &&& m.is_sorted ==> forall|k: int, l: int|
            0 <= k && k % 2 != m.i % 2 && l == k + 1 && l < s.len() ==> s[k] <= s[l]
    }
}

/// A step of the model keeps the invariant, the length and the values.
pub proof fn lemma_odd_even_next(m: OddEvenModel, s: Seq<usize>)
    requires
        odd_even_inv(m, s),
    ensures
        odd_even_inv(odd_even_next(m, s).0, odd_even_next(m, s).1),
        odd_even_next(m, s).1.len() == s.len(),
        odd_even_next(m, s).1.to_multiset() == s.to_multiset(),
        m.status.comparisons <= odd_even_next(m, s).0.status.comparisons,
        m.status.swaps <= odd_even_next(m, s).0.status.swaps,
{
    if !m.status.finished && s.len() >= 2 {
        if m.i >= s.len() - 1 {
            if m.is_sorted {
                lemma_adjacent_sorted(s);
            } else {
                let start: int = if m.odd_phase {
                    0
                } else {
                    1
                };
                if start + 1 < s.len() {
                    lemma_exchange(s, start, start + 1);
                }
            }
        } else {
            lemma_exchange(s, m.i, m.i + 1);
        }
    }
}

/// A bound on the steps that are left.
pub open spec fn odd_even_budget(m: OddEvenModel, s: Seq<usize>) -> nat {
    if m.status.finished {
        0
    } else {
        1 + at_least_zero(
            disorder(s) * (2 * s.len() + 6) + s.len() + 1 - m.i + if m.is_sorted {
                0
            } else {
                s.len() + 3
            },
        )
    }
}

/// Every step from a configuration that is not complete lowers the bound.
pub proof fn lemma_odd_even_progress(m: OddEvenModel, s: Seq<usize>)
    requires
        odd_even_inv(m, s),
        !m.status.finished,
    ensures
        odd_even_budget(odd_even_next(m, s).0, odd_even_next(m, s).1) < odd_even_budget(m, s),
{
    lemma_disorder_bounds(s);
    let k = 2 * s.len() as int + 6;
    lemma_products(disorder(s), disorder(s), k);
    if s.len() >= 2 {
        let i = if m.i >= s.len() - 1 {
            if m.odd_phase {
                0int
            } else {
                1int
            }
        } else {
            m.i
        };
        if !(m.i >= s.len() - 1 && m.is_sorted) && i < s.len() - 1 && s[i] > s[i + 1] {
            let s2 = exchange(s, i, i + 1);
            lemma_exchange_lowers_disorder(s, i, i + 1);
            lemma_disorder_bounds(s2);
            lemma_products(disorder(s2), disorder(s), k);
        }
    }
}

/// A step either leaves the sequence and the counter of exchanges as they
/// are, or takes one inversion out of the sequence and counts one exchange.
pub proof fn lemma_odd_even_step_swaps(m: OddEvenModel, s: Seq<usize>)
    requires
        odd_even_inv(m, s),
    ensures
        counts_inversion(
            m.status.swaps,
            s,
            odd_even_next(m, s).0.status.swaps,
            odd_even_next(m, s).1,
        ),
{
    if !m.status.finished && s.len() >= 2 {
        let i = if m.i >= s.len() - 1 {
            if m.odd_phase {
                0int
            } else {
                1int
            }
        } else {
            m.i
        };
        if i < s.len() - 1 {
            lemma_neighbours_exchange_inversions(s, i);
        }
    }
}

/// At every point of a run of an odd-even sort that began with a machine that had
/// not run yet, the counter of exchanges shows the number of inversions
/// that the sequence has lost since.
pub proof fn lemma_odd_even_swaps(ms: Seq<OddEvenModel>, ss: Seq<Seq<usize>>, k: int)
    requires
        is_run::<OddEvenSort>(ms, ss),
        ms[0] == odd_even_initial(),
        0 <= k < ms.len(),
    ensures
        inversions(ss[k]) <= inversions(ss[0]),
        ms[k].status.swaps == counted(inversions(ss[0]) - inversions(ss[k])),
{
    assert forall|j: int| 0 <= j < ms.len() - 1 implies #[trigger] step_counts_inversion::<OddEvenSort>(
        ms,
        ss,
        j,
    ) by {
        lemma_run_point::<OddEvenSort>(ms, ss, j);
        assert(OddEvenSort::step_spec(ms[j], ss[j], ms[j + 1], ss[j + 1]));
        lemma_odd_even_step_swaps(ms[j], ss[j]);
    }
    lemma_exchanges_counted::<OddEvenSort>(ms, ss, k);
}

/// When an odd-even sort that began with a machine that had not run yet is
/// finished, its counter of exchanges shows the number of inversions of the
/// sequence that it began with.
pub proof fn lemma_odd_even_counts_inversions(ms: Seq<OddEvenModel>, ss: Seq<Seq<usize>>)
    requires
        is_run::<OddEvenSort>(ms, ss),
        ms[0] == odd_even_initial(),
        ms.last().status.finished,
    ensures
        ms.last().status.swaps == counted(inversions(ss[0]) as int),
{
    let k = ms.len() - 1;
    lemma_odd_even_swaps(ms, ss, k);
    lemma_run_point::<OddEvenSort>(ms, ss, k);
    assert(sorted(ss[k]));
    lemma_sorted_no_inversions(ss[k]);
}

impl OddEvenSort {
    /// A machine that has not run yet.
    pub fn new() -> (r: Self)
        ensures
            r@ == odd_even_initial(),
    {
        OddEvenSort { status: Status::new(), is_sorted: false, odd_phase: true, i: 1 }
    }

    /// Compares the pair at `self.i`, where the phase has one left.
    fn visit(&mut self, array: &mut Vec<usize>)
        requires
            old(array)@.len() >= 2,
            old(self).i < old(array)@.len(),
        ensures
            (final(self)@, final(array)@) == odd_even_visit(old(self)@, old(array)@),
    {
        if self.i < array.len() - 1 {
            let i = self.i;
            let out = array[i] > array[i + 1];
            if out {
                swap(array, i, i + 1);
            }
            self.status = self.status.note_visit(i, i + 1, out);
            self.is_sorted = self.is_sorted && !out;
            self.i = i + 2;
        } else {
            self.status = self.status.note_idle();
        }
    }
}

impl Sorter for OddEvenSort {
    open spec fn origin(m: OddEvenModel) -> OddEvenModel {
        odd_even_initial()
    }

    open spec fn status(m: OddEvenModel) -> Status {
        m.status
    }

    open spec fn inv(m: OddEvenModel, s: Seq<usize>) -> bool {
        odd_even_inv(m, s)
    }

    open spec fn content(m: OddEvenModel, s: Seq<usize>) -> Multiset<usize> {
        s.to_multiset()
    }

    open spec fn step_spec(m: OddEvenModel, s: Seq<usize>, m2: OddEvenModel, s2: Seq<usize>) -> bool {
        (m2, s2) == odd_even_next(m, s)
    }

    open spec fn deterministic(m: OddEvenModel) -> bool {
        true
    }

    open spec fn budget(m: OddEvenModel, s: Seq<usize>) -> nat {
        odd_even_budget(m, s)
    }

    proof fn lemma_initial(m: OddEvenModel, s: Seq<usize>) {
    }

    proof fn lemma_origin(m: OddEvenModel) {
    }

    proof fn lemma_inv(m: OddEvenModel, s: Seq<usize>) {
    }

    proof fn lemma_step(m: OddEvenModel, s: Seq<usize>, m2: OddEvenModel, s2: Seq<usize>) {
        lemma_odd_even_next(m, s);
    }

    proof fn lemma_progress(m: OddEvenModel, s: Seq<usize>, m2: OddEvenModel, s2: Seq<usize>) {
        lemma_odd_even_progress(m, s);
    }

    proof fn lemma_deterministic(
        m: OddEvenModel,
        s: Seq<usize>,
        m2: OddEvenModel,
        s2: Seq<usize>,
        m3: OddEvenModel,
        s3: Seq<usize>,
    ) {
    }

    fn new() -> (r: Self) {
        OddEvenSort::new()
    }

    fn special(&self) -> (r: (usize, usize)) {
        self.status.special
    }

    fn reason(&self) -> (r: Reasons) {
        self.status.reason
    }

    fn step(&mut self, array: &mut Vec<usize>) -> (done: bool) {
        proof {
            if !self.status.finished {
                lemma_odd_even_progress(self@, array@);
            }
            lemma_odd_even_next(self@, array@);
        }
        if self.status.finished {
            return true;
        }
        if array.len() <= 1 {
            self.status = self.status.note_idle().note_finish();
            return true;
        }
        if self.i >= array.len() - 1 {
            if self.is_sorted {
                self.status = self.status.note_idle().note_finish();
            } else {
                self.is_sorted = true;
                self.i = if self.odd_phase {
                    0
                } else {
                    1
                };
                self.odd_phase = !self.odd_phase;
                self.visit(array);
            }
        } else {
            self.visit(array);
        }
        self.status.finished
    }

    fn reset_state(&mut self) {
        *self = OddEvenSort::new();
    }

    fn is_finished(&self) -> (r: bool) {
        self.status.finished
    }

    fn comparisons(&self) -> (r: usize) {
        self.status.comparisons
    }

    fn swaps(&self) -> (r: usize) {
        self.status.swaps
    }
}

} // verus!
