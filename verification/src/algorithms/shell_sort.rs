//! Shell sort: insertion sort over positions a gap apart, with a gap that
//! halves from pass to pass.

use super::at_least_zero;
use super::potential::{
    disorder, lemma_disorder_bounds, lemma_disorder_exchange, lemma_exchange_lowers_disorder,
    lemma_exchange_raises_disorder, lemma_products,
};
use super::{
    exchange, highlight_valid, lemma_exchange, sorted, sorted_range, swap, Reasons, Sorter, Status,
};
use vstd::multiset::Multiset;
use vstd::prelude::*;

verus! {

/// The state of a shell sort between two steps.
pub struct ShellSort {
    status: Status,
    gap: usize,
    i: usize,
    j: usize,
    swapped: bool,
}

/// The configuration of a shell sort.
///
/// `gap` is the distance between the positions of a pair, 0 before the
/// machine has seen its sequence. `i` is the position whose value is being
/// inserted, `j` the place that this value has reached, and `swapped` says
/// whether the current pass has exchanged anything.
pub struct ShellModel {
    pub status: Status,
    pub gap: int,
    pub i: int,
    pub j: int,
    pub swapped: bool,
}

impl View for ShellSort {
    type V = ShellModel;

    closed spec fn view(&self) -> ShellModel {
        ShellModel {
            status: self.status,
            gap: self.gap as int,
            i: self.i as int,
            j: self.j as int,
            swapped: self.swapped,
        }
    }
}

/// The configuration before the first step.
pub open spec fn shell_initial() -> ShellModel {
    ShellModel { status: Status::fresh(), gap: 0, i: 0, j: 0, swapped: false }
}

/// Half of `gap`, but at least 1.
pub open spec fn shell_next_gap(gap: int) -> int {
    if gap / 2 < 1 {
        1
    } else {
        gap / 2
    }
}

/// The configuration at the start of a pass with the given gap.
pub open spec fn shell_pass(status: Status, gap: int) -> ShellModel {
    ShellModel { status, gap, i: gap, j: gap, swapped: false }
}

/// One step of the sort.
///
/// A sequence of fewer than two values is complete at once. The first step
/// on a longer one sets the gap to half the length. Within a pass a step
/// compares the value being inserted with the one a gap before it. If they
/// are out of order it exchanges them, and the insertion goes on from the
/// lower position while a further gap fits; otherwise the value is in
/// place and the next position is taken up. At the end of a pass a step of
/// its own either marks the sort complete, if the gap is 1 and the pass
/// exchanged nothing, or begins a pass with the next gap.
pub open spec fn shell_next(m: ShellModel, s: Seq<usize>) -> (ShellModel, Seq<usize>) {
    if m.status.finished {
        (m, s)
    } else if s.len() <= 1 {
        (ShellModel { status: m.status.idle().finish(), ..m }, s)
    } else {
        let m1 = if m.gap == 0 {
            shell_pass(m.status, s.len() as int / 2)
        } else {
            m
        };
        if m1.i < s.len() {
            let lo = m1.j - m1.gap;
            let hi = m1.j;
            let out = s[lo] > s[hi];
            let status = m1.status.after_visit(lo, hi, out);
            let s2 = if out {
                exchange(s, lo, hi)
            } else {
                s
            };
            if out && lo >= m1.gap {
                (ShellModel { status, j: lo, swapped: true, ..m1 }, s2)
            } else {
                (
                    ShellModel {
                        status,
                        i: m1.i + 1,
                        j: m1.i + 1,
                        swapped: m1.swapped || out,
                        ..m1
                    },
                    s2,
                )
            }
        } else if m1.gap == 1 && !m1.swapped {
            (ShellModel { status: m1.status.idle().finish(), ..m1 }, s)
        } else {
            (shell_pass(m1.status.idle(), shell_next_gap(m1.gap)), s)
        }
    }
}

/// The configurations that a run over `s` can be in.
pub open spec fn shell_inv(m: ShellModel, s: Seq<usize>) -> bool {
    &&& s.len() <= usize::MAX
    &&& highlight_valid(m.status.special, s.len())
    &&& m.status.finished ==> sorted(s)
    &&& !m.status.finished && m.gap != 0 ==> {
        &&& 1 <= m.gap <= m.i <= s.len()
        &&& m.i < s.len() ==> m.gap <= m.j <= m.i
        &&& m.gap == 1 && !m.swapped ==> {
            &&& m.i < s.len() ==> m.j == m.i
            &&& sorted_range(s, 0, m.i - 1)
        }
    }
}

/// A step of the model keeps the invariant, the length and the values.
pub proof fn lemma_shell_next(m: ShellModel, s: Seq<usize>)
    requires
        shell_inv(m, s),
    ensures
        shell_inv(shell_next(m, s).0, shell_next(m, s).1),
        shell_next(m, s).1.len() == s.len(),
        shell_next(m, s).1.to_multiset() == s.to_multiset(),
        m.status.comparisons <= shell_next(m, s).0.status.comparisons,
        m.status.swaps <= shell_next(m, s).0.status.swaps,
{
    if !m.status.finished && s.len() >= 2 {
        let m1 = if m.gap == 0 {
            shell_pass(m.status, s.len() as int / 2)
        } else {
            m
        };
        if m1.i < s.len() {
            lemma_exchange(s, m1.j - m1.gap, m1.j);
        }
    }
}

/// A bound on the steps that are left.
pub open spec fn shell_budget(m: ShellModel, s: Seq<usize>) -> nat {
    if m.status.finished {
        0
    } else {
        let gap = if m.gap == 0 {
            s.len() as int / 2
        } else {
            m.gap
        };
        let i = if m.gap == 0 {
            gap
        } else {
            m.i
        };
        1 + at_least_zero(
            disorder(s) * (s.len() + 2) + gap * (s.len() + 1) + s.len() - i + if m.gap != 0
                && m.swapped {
                s.len() + 1
            } else {
                0
            },
        )
    }
}

/// Every step from a configuration that is not complete lowers the bound.
pub proof fn lemma_shell_progress(m: ShellModel, s: Seq<usize>)
    requires
        shell_inv(m, s),
        !m.status.finished,
    ensures
        shell_budget(shell_next(m, s).0, shell_next(m, s).1) < shell_budget(m, s),
{
    lemma_disorder_bounds(s);
    let k = s.len() as int + 2;
    lemma_products(disorder(s), disorder(s), k);
    if s.len() >= 2 {
        let m1 = if m.gap == 0 {
            shell_pass(m.status, s.len() as int / 2)
        } else {
            m
        };
        lemma_products(m1.gap, m1.gap, s.len() as int + 1);
        if m1.i < s.len() {
            if s[m1.j - m1.gap] > s[m1.j] {
                let s2 = exchange(s, m1.j - m1.gap, m1.j);
                lemma_exchange_lowers_disorder(s, m1.j - m1.gap, m1.j);
                lemma_disorder_bounds(s2);
                lemma_products(disorder(s2), disorder(s), k);
            }
        } else {
            lemma_products(shell_next_gap(m1.gap), m1.gap, s.len() as int + 1);
        }
    }
}

impl ShellSort {
    /// A machine that has not run yet.
    pub fn new() -> (r: Self)
        ensures
            r@ == shell_initial(),
    {
        ShellSort { status: Status::new(), gap: 0, i: 0, j: 0, swapped: false }
    }
}

impl Sorter for ShellSort {
    open spec fn origin(m: ShellModel) -> ShellModel {
        shell_initial()
    }

    open spec fn status(m: ShellModel) -> Status {
        m.status
    }

    open spec fn inv(m: ShellModel, s: Seq<usize>) -> bool {
        shell_inv(m, s)
    }

    open spec fn content(m: ShellModel, s: Seq<usize>) -> Multiset<usize> {
        s.to_multiset()
    }

    open spec fn step_spec(m: ShellModel, s: Seq<usize>, m2: ShellModel, s2: Seq<usize>) -> bool {
        (m2, s2) == shell_next(m, s)
    }

    open spec fn deterministic(m: ShellModel) -> bool {
        true
    }

    open spec fn budget(m: ShellModel, s: Seq<usize>) -> nat {
        shell_budget(m, s)
    }

    proof fn lemma_initial(m: ShellModel, s: Seq<usize>) {
    }

    proof fn lemma_origin(m: ShellModel) {
    }

    proof fn lemma_inv(m: ShellModel, s: Seq<usize>) {
    }

    proof fn lemma_step(m: ShellModel, s: Seq<usize>, m2: ShellModel, s2: Seq<usize>) {
        lemma_shell_next(m, s);
    }

    proof fn lemma_progress(m: ShellModel, s: Seq<usize>, m2: ShellModel, s2: Seq<usize>) {
        lemma_shell_progress(m, s);
    }

    proof fn lemma_deterministic(
        m: ShellModel,
        s: Seq<usize>,
        m2: ShellModel,
        s2: Seq<usize>,
        m3: ShellModel,
        s3: Seq<usize>,
    ) {
    }

    fn new() -> (r: Self) {
        ShellSort::new()
    }

    fn special(&self) -> (r: (usize, usize)) {
        self.status.special
    }

    fn reason(&self) -> (r: Reasons) {
        self.status.reason
    }

    fn step(&mut self, array: &mut Vec<usize>) -> (done: bool) {
        proof {
            if !self.status.finished {
                lemma_shell_progress(self@, array@);
            }
            lemma_shell_next(self@, array@);
        }
        if self.status.finished {
            return true;
        }
        if array.len() <= 1 {
            self.status = self.status.note_idle().note_finish();
            return true;
        }
        if self.gap == 0 {
            self.gap = array.len() / 2;
            self.i = self.gap;
            self.j = self.gap;
            self.swapped = false;
        }
        if self.i < array.len() {
            let lo = self.j - self.gap;
            let hi = self.j;
            let out = array[lo] > array[hi];
            if out {
                swap(array, lo, hi);
            }
            self.status = self.status.note_visit(lo, hi, out);
            if out && lo >= self.gap {
                self.j = lo;
                self.swapped = true;
            } else {
                self.i = self.i + 1;
                self.j = self.i;
                self.swapped = self.swapped || out;
            }
        } else if self.gap == 1 && !self.swapped {
            self.status = self.status.note_idle().note_finish();
        } else {
            self.status = self.status.note_idle();
            self.gap = if self.gap / 2 < 1 {
                1
            } else {
                self.gap / 2
            };
            self.i = self.gap;
            self.j = self.gap;
            self.swapped = false;
        }
        self.status.finished
    }

    fn reset_state(&mut self) {
        *self = ShellSort::new();
    }

    fn is_finished(&self) -> (r: bool) {
        self.status.finished
    }

    fn comparisons(&self) -> (r: usize) {
        self.status.comparisons
    }

    fn swaps(&self) -> (r: usize) {
        self.status.swaps
    }
}

} // verus!
