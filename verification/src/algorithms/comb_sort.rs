//! Comb sort: bubble passes over pairs a gap apart, with a gap that
//! shrinks by the factor 10/13 from pass to pass.

use super::at_least_zero;
use super::potential::{
    disorder, lemma_disorder_bounds, lemma_disorder_exchange, lemma_exchange_lowers_disorder,
    lemma_exchange_raises_disorder, lemma_products,
};
use super::{
    exchange, highlight_valid, lemma_exchange, sorted, sorted_range, swap, Reasons, Sorter, Status,
};
use vstd::multiset::Multiset;
use vstd::prelude::*;

verus! {

/// The state of a comb sort between two steps.
pub struct CombSort {
    status: Status,
    gap: usize,
    i: usize,
    swapped: bool,
}

/// The configuration of a comb sort.
///
/// `gap` is the distance between the positions of a pair, 0 before the
/// machine has seen its sequence. `i` is the left position of the next
/// pair, and `swapped` says whether the current pass has exchanged anything.
pub struct CombModel {
    pub status: Status,
    pub gap: int,
    pub i: int,
    pub swapped: bool,
}

impl View for CombSort {
    type V = CombModel;

    closed spec fn view(&self) -> CombModel {
        CombModel {
            status: self.status,
            gap: self.gap as int,
            i: self.i as int,
            swapped: self.swapped,
        }
    }
}

/// The configuration before the first step.
pub open spec fn comb_initial() -> CombModel {
    CombModel { status: Status::fresh(), gap: 0, i: 0, swapped: false }
}

/// The gap after `gap`: ten thirteenths of it, rounded down, but at least 1.
pub open spec fn comb_next_gap(gap: int) -> int {
    if gap * 10 / 13 < 1 {
        1
    } else {
        gap * 10 / 13
    }
}

/// One step of the sort.
///
/// A sequence of fewer than two values is complete at once. The first step
/// on a longer one takes the gap after the length. Within a pass a step
/// compares the pair at `i` and `i + gap` and exchanges it if it is out of
/// order. At the end of a pass a step of its own either marks the sort
/// complete, if the gap is 1 and the pass exchanged nothing, or begins a
/// pass with the next gap.
pub open spec fn comb_next(m: CombModel, s: Seq<usize>) -> (CombModel, Seq<usize>) {
    if m.status.finished {
        (m, s)
    } else if s.len() <= 1 {
        (CombModel { status: m.status.idle().finish(), ..m }, s)
    } else {
        let m1 = if m.gap == 0 {
            CombModel { gap: comb_next_gap(s.len() as int), i: 0, swapped: false, ..m }
        } else {
            m
        };
        if m1.i + m1.gap < s.len() {
            let lo = m1.i;
            let hi = m1.i + m1.gap;
            let out = s[lo] > s[hi];
            (
                CombModel {
                    status: m1.status.after_visit(lo, hi, out),
                    i: lo + 1,
                    swapped: m1.swapped || out,
                    ..m1
                },
                if out {
                    exchange(s, lo, hi)
                } else {
                    s
                },
            )
        } else if m1.gap == 1 && !m1.swapped {
            (CombModel { status: m1.status.idle().finish(), ..m1 }, s)
        } else {
            (
                CombModel {
                    status: m1.status.idle(),
                    gap: comb_next_gap(m1.gap),
                    i: 0,
                    swapped: false,
                },
                s,
            )
        }
    }
}

/// The configurations that a run over `s` can be in.
pub open spec fn comb_inv(m: CombModel, s: Seq<usize>) -> bool {
    &&& s.len() <= usize::MAX
    &&& highlight_valid(m.status.special, s.len())
    &&& m.status.finished ==> sorted(s)
    &&& !m.status.finished && m.gap != 0 ==> {
        &&& 1 <= m.gap <= s.len()
        &&& 0 <= m.i
        &&& m.i + m.gap <= s.len()
        &&& m.gap == 1 && !m.swapped ==> sorted_range(s, 0, m.i)
    }
}

/// A step of the model keeps the invariant, the length and the values.
pub proof fn lemma_comb_next(m: CombModel, s: Seq<usize>)
    requires
        comb_inv(m, s),
    ensures
        comb_inv(comb_next(m, s).0, comb_next(m, s).1),
        comb_next(m, s).1.len() == s.len(),
        comb_next(m, s).1.to_multiset() == s.to_multiset(),
        m.status.comparisons <= comb_next(m, s).0.status.comparisons,
        m.status.swaps <= comb_next(m, s).0.status.swaps,
{
    if !m.status.finished && s.len() >= 2 {
        let m1 = if m.gap == 0 {
            CombModel { gap: comb_next_gap(s.len() as int), i: 0, swapped: false, ..m }
        } else {
            m
        };
        if m1.i + m1.gap < s.len() {
            lemma_exchange(s, m1.i, m1.i + m1.gap);
        }
    }
}

/// A bound on the steps that are left.
pub open spec fn comb_budget(m: CombModel, s: Seq<usize>) -> nat {
    if m.status.finished {
        0
    } else {
        let gap = if m.gap == 0 {
            comb_next_gap(s.len() as int)
        } else {
            m.gap
        };
        let i = if m.gap == 0 {
            0
        } else {
            m.i
        };
        1 + at_least_zero(
            disorder(s) * (s.len() + 2) + gap * (s.len() + 1) + s.len() - i + if m.gap != 0
                && m.swapped {
                s.len() + 1
            } else {
                0
            },
        )
    }
}

/// Every step from a configuration that is not complete lowers the bound.
pub proof fn lemma_comb_progress(m: CombModel, s: Seq<usize>)
    requires
        comb_inv(m, s),
        !m.status.finished,
    ensures
        comb_budget(comb_next(m, s).0, comb_next(m, s).1) < comb_budget(m, s),
{
    lemma_disorder_bounds(s);
    let k = s.len() as int + 2;
    lemma_products(disorder(s), disorder(s), k);
    if s.len() >= 2 {
        let m1 = if m.gap == 0 {
            CombModel { gap: comb_next_gap(s.len() as int), i: 0, swapped: false, ..m }
        } else {
            m
        };
        lemma_products(m1.gap, m1.gap, s.len() as int + 1);
        if m1.i + m1.gap < s.len() {
            if s[m1.i] > s[m1.i + m1.gap] {
                let s2 = exchange(s, m1.i, m1.i + m1.gap);
                lemma_exchange_lowers_disorder(s, m1.i, m1.i + m1.gap);
                lemma_disorder_bounds(s2);
                lemma_products(disorder(s2), disorder(s), k);
            }
        } else {
            lemma_products(comb_next_gap(m1.gap), m1.gap, s.len() as int + 1);
        }
    }
}

impl CombSort {
    /// A machine that has not run yet.
    pub fn new() -> (r: Self)
        ensures
            r@ == comb_initial(),
    {
        CombSort { status: Status::new(), gap: 0, i: 0, swapped: false }
    }

    /// The gap after `gap`: ten thirteenths of it, rounded down, but at
    /// least 1.
    pub fn get_next_gap(gap: usize) -> (r: usize)
        ensures
            r == comb_next_gap(gap as int),
    {
        let new_gap = gap / 13 * 10 + gap % 13 * 10 / 13;
        if new_gap < 1 {
            1
        } else {
            new_gap
        }
    }
}

impl Sorter for CombSort {
    open spec fn origin(m: CombModel) -> CombModel {
        comb_initial()
    }

    open spec fn status(m: CombModel) -> Status {
        m.status
    }

    open spec fn inv(m: CombModel, s: Seq<usize>) -> bool {
        comb_inv(m, s)
    }

    open spec fn content(m: CombModel, s: Seq<usize>) -> Multiset<usize> {
        s.to_multiset()
    }

    open spec fn step_spec(m: CombModel, s: Seq<usize>, m2: CombModel, s2: Seq<usize>) -> bool {
        (m2, s2) == comb_next(m, s)
    }

    open spec fn deterministic(m: CombModel) -> bool {
        true
    }

    open spec fn budget(m: CombModel, s: Seq<usize>) -> nat {
        comb_budget(m, s)
    }

    proof fn lemma_initial(m: CombModel, s: Seq<usize>) {
    }

    proof fn lemma_origin(m: CombModel) {
    }

    proof fn lemma_inv(m: CombModel, s: Seq<usize>) {
    }

    proof fn lemma_step(m: CombModel, s: Seq<usize>, m2: CombModel, s2: Seq<usize>) {
        lemma_comb_next(m, s);
    }

    proof fn lemma_progress(m: CombModel, s: Seq<usize>, m2: CombModel, s2: Seq<usize>) {
        lemma_comb_progress(m, s);
    }

    proof fn lemma_deterministic(
        m: CombModel,
        s: Seq<usize>,
        m2: CombModel,
        s2: Seq<usize>,
        m3: CombModel,
        s3: Seq<usize>,
    ) {
    }

    fn new() -> (r: Self) {
        CombSort::new()
    }

    fn special(&self) -> (r: (usize, usize)) {
        self.status.special
    }

    fn reason(&self) -> (r: Reasons) {
        self.status.reason
    }

    fn step(&mut self, array: &mut Vec<usize>) -> (done: bool) {
        proof {
            if !self.status.finished {
                lemma_comb_progress(self@, array@);
            }
            lemma_comb_next(self@, array@);
        }
        if self.status.finished {
            return true;
        }
        if array.len() <= 1 {
            self.status = self.status.note_idle().note_finish();
            return true;
        }
        if self.gap == 0 {
            self.gap = CombSort::get_next_gap(array.len());
            self.i = 0;
            self.swapped = false;
        }
        if self.i + self.gap < array.len() {
            let lo = self.i;
            let hi = self.i + self.gap;
            let out = array[lo] > array[hi];
            if out {
                swap(array, lo, hi);
            }
            self.status = self.status.note_visit(lo, hi, out);
            self.i = lo + 1;
            self.swapped = self.swapped || out;
        } else if self.gap == 1 && !self.swapped {
            self.status = self.status.note_idle().note_finish();
        } else {
            self.status = self.status.note_idle();
            self.gap = CombSort::get_next_gap(self.gap);
            self.i = 0;
            self.swapped = false;
        }
        self.status.finished
    }

    fn reset_state(&mut self) {
        *self = CombSort::new();
    }

    fn is_finished(&self) -> (r: bool) {
        self.status.finished
    }

    fn comparisons(&self) -> (r: usize) {
        self.status.comparisons
    }

    fn swaps(&self) -> (r: usize) {
        self.status.swaps
    }
}

} // verus!
