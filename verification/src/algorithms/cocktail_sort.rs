//! Cocktail shaker sort: bubble passes that alternate in direction over a
//! window that shrinks from both ends.

use super::potential::{
    inversions, lemma_neighbours_exchange_inversions, lemma_sorted_no_inversions,
};
use super::runs::{
    counted, counts_inversion, is_run, lemma_exchanges_counted, lemma_run_point,
    step_counts_inversion,
};
use super::at_least_zero;
use super::potential::lemma_products;
use super::{exchange, highlight_valid, lemma_exchange, sorted, swap, Reasons, Sorter, Status};
use vstd::multiset::Multiset;
use vstd::prelude::*;

verus! {

/// The state of a cocktail shaker sort between two steps.
pub struct CocktailSort {
    status: Status,
    start: usize,
    end: usize,
    current: usize,
    forward: bool,
    swapped: bool,
}

/// The configuration of a cocktail shaker sort.
///
/// The window `start..=end` holds the positions that are not settled yet;
/// `end == 0` marks a machine that has not seen its sequence. On a forward
/// pass `current` is the left position of the next pair, on a backward pass
/// the right one. `swapped` says whether the current round, a forward pass
/// and the backward pass after it, has exchanged anything.
pub struct CocktailModel {
    pub status: Status,
    pub start: int,
    pub end: int,
    pub current: int,
    pub forward: bool,
    pub swapped: bool,
}

impl View for CocktailSort {
    type V = CocktailModel;

    closed spec fn view(&self) -> CocktailModel {
        CocktailModel {
            status: self.status,
            start: self.start as int,
            end: self.end as int,
            current: self.current as int,
            forward: self.forward,
            swapped: self.swapped,
        }
    }
}

/// The configuration before the first step.
pub open spec fn cocktail_initial() -> CocktailModel {
    CocktailModel {
        status: Status::fresh(),
        start: 0,
        end: 0,
        current: 0,
        forward: true,
        swapped: false,
    }
}

/// One step of the sort.
///
/// A sequence of fewer than two values is complete at once. The first step
/// on a longer one opens the window over the whole sequence. Every later
/// step compares one adjacent pair and exchanges it if it is out of order.
/// A forward pass that reaches the window's end settles that position and
/// turns round; a backward pass that reaches the start settles it and ends
/// the round. The sort is complete when the window has shrunk to one
/// position or a round has exchanged nothing.
pub open spec fn cocktail_next(m: CocktailModel, s: Seq<usize>) -> (CocktailModel, Seq<usize>) {
    if m.status.finished {
        (m, s)
    } else if s.len() <= 1 {
        (CocktailModel { status: m.status.idle().finish(), ..m }, s)
    } else if m.end == 0 {
        (
            CocktailModel {
                status: m.status.idle(),
                start: 0,
                end: s.len() - 1,
                current: 0,
                forward: true,
                swapped: false,
            },
            s,
        )
    } else if m.forward {
        let i = m.current;
        let out = s[i] > s[i + 1];
        let s2 = if out {
            exchange(s, i, i + 1)
        } else {
            s
        };
        let status = m.status.after_visit(i, i + 1, out);
        let swapped = m.swapped || out;
        if i + 1 == m.end {
            let end = m.end - 1;
            (
                CocktailModel {
                    status: if m.start >= end {
                        status.finish()
                    } else {
                        status
                    },
                    start: m.start,
                    end,
                    current: end,
                    forward: false,
                    swapped,
                },
                s2,
            )
        } else {
            (CocktailModel { status, current: i + 1, swapped, ..m }, s2)
        }
    } else {
        let i = m.current - 1;
        let out = s[i] > s[i + 1];
        let s2 = if out {
            exchange(s, i, i + 1)
        } else {
            s
        };
        let status = m.status.after_visit(i, i + 1, out);
        let swapped = m.swapped || out;
        if i == m.start {
            let start = m.start + 1;
            (
                CocktailModel {
                    status: if !swapped || start >= m.end {
                        status.finish()
                    } else {
                        status
                    },
                    start,
                    end: m.end,
                    current: start,
                    forward: true,
                    swapped: false,
                },
                s2,
            )
        } else {
            (CocktailModel { status, current: i, swapped, ..m }, s2)
        }
    }
}

/// Every value at a position above `e` is at least every value before it.
pub open spec fn settled_above(s: Seq<usize>, e: int) -> bool {
    forall|i: int, j: int| 0 <= i < j < s.len() && e < j ==> s[i] <= s[j]
}

/// Every value at a position below `b` is at most every value after it.
pub open spec fn settled_below(s: Seq<usize>, b: int) -> bool {
    forall|i: int, j: int| 0 <= i < j < s.len() && i < b ==> s[i] <= s[j]
}

/// The configurations that a run over `s` can be in.
pub open spec fn cocktail_inv(m: CocktailModel, s: Seq<usize>) -> bool {
    &&& s.len() <= usize::MAX
    &&& highlight_valid(m.status.special, s.len())
    &&& m.status.finished ==> sorted(s)
    &&& !m.status.finished && m.end != 0 ==> {
        &&& 0 <= m.start < m.end < s.len()
        &&& m.forward ==> m.start <= m.current < m.end
        &&& !m.forward ==> m.start < m.current <= m.end
        &&& settled_above(s, m.end)
        &&& settled_below(s, m.start)
        &&& m.forward ==> forall|k: int| m.start <= k < m.current ==> #[trigger] s[k] <= s[m.current]
        &&& !m.forward ==> forall|k: int| m.current < k <= m.end ==> s[m.current] <= #[trigger] s[k]
        &&& m.forward && !m.swapped ==> forall|i: int, j: int|
            m.start <= i <= j <= m.current ==> s[i] <= s[j]
        &&& !m.forward && !m.swapped ==> sorted(s)
    }
}

/// A step of the model keeps the invariant, the length and the values.
pub proof fn lemma_cocktail_next(m: CocktailModel, s: Seq<usize>)
    requires
        cocktail_inv(m, s),
    ensures
        cocktail_inv(cocktail_next(m, s).0, cocktail_next(m, s).1),
        cocktail_next(m, s).1.len() == s.len(),
        cocktail_next(m, s).1.to_multiset() == s.to_multiset(),
        m.status.comparisons <= cocktail_next(m, s).0.status.comparisons,
        m.status.swaps <= cocktail_next(m, s).0.status.swaps,
{
    if !m.status.finished && s.len() > 1 && m.end != 0 {
        let i = if m.forward {
            m.current
        } else {
            m.current - 1
        };
        lemma_exchange(s, i, i + 1);
    }
}

/// A bound on the steps that are left.
pub open spec fn cocktail_budget(m: CocktailModel, s: Seq<usize>) -> nat {
    if m.status.finished {
        0
    } else {
        1 + at_least_zero(
            if m.end == 0 {
                (s.len() * (s.len() + 2) + s.len() + 1) as int
            } else {
                (m.end - m.start) * (s.len() + 2) + if m.forward {
                    m.end - m.current
                } else {
                    m.current - m.start
                }
            },
        )
    }
}

/// Every step from a configuration that is not complete lowers the bound.
pub proof fn lemma_cocktail_progress(m: CocktailModel, s: Seq<usize>)
    requires
        cocktail_inv(m, s),
        !m.status.finished,
    ensures
        cocktail_budget(cocktail_next(m, s).0, cocktail_next(m, s).1) < cocktail_budget(m, s),
{
    if s.len() >= 2 {
        if m.end == 0 {
            lemma_products(s.len() - 1, s.len() as int, s.len() as int + 2);
            lemma_products(s.len() - 1, s.len() - 1, s.len() as int + 2);
        } else {
            lemma_products(m.end - m.start, m.end - m.start, s.len() as int + 2);
            lemma_products(m.end - m.start - 1, m.end - m.start, s.len() as int + 2);
        }
    }
}

/// A step either leaves the sequence and the counter of exchanges as they
/// are, or takes one inversion out of the sequence and counts one exchange.
pub proof fn lemma_cocktail_step_swaps(m: CocktailModel, s: Seq<usize>)
    requires
        cocktail_inv(m, s),
    ensures
        counts_inversion(
            m.status.swaps,
            s,
            cocktail_next(m, s).0.status.swaps,
            cocktail_next(m, s).1,
        ),
{
    if !m.status.finished && s.len() >= 2 && m.end != 0 {
        let i = if m.forward {
            m.current
        } else {
            m.current - 1
        };
        lemma_neighbours_exchange_inversions(s, i);
    }
}

/// At every point of a run of a cocktail shaker sort that began with a machine that had
/// not run yet, the counter of exchanges shows the number of inversions
/// that the sequence has lost since.
pub proof fn lemma_cocktail_swaps(ms: Seq<CocktailModel>, ss: Seq<Seq<usize>>, k: int)
    requires
        is_run::<CocktailSort>(ms, ss),
        ms[0] == cocktail_initial(),
        0 <= k < ms.len(),
    ensures
        inversions(ss[k]) <= inversions(ss[0]),
        ms[k].status.swaps == counted(inversions(ss[0]) - inversions(ss[k])),
{
    assert forall|j: int| 0 <= j < ms.len() - 1 implies #[trigger] step_counts_inversion::<CocktailSort>(
        ms,
        ss,
        j,
    ) by {
        lemma_run_point::<CocktailSort>(ms, ss, j);
        assert(CocktailSort::step_spec(ms[j], ss[j], ms[j + 1], ss[j + 1]));
        lemma_cocktail_step_swaps(ms[j], ss[j]);
    }
    lemma_exchanges_counted::<CocktailSort>(ms, ss, k);
}

/// When a cocktail shaker sort that began with a machine that had not run yet is
/// finished, its counter of exchanges shows the number of inversions of the
/// sequence that it began with.
pub proof fn lemma_cocktail_counts_inversions(ms: Seq<CocktailModel>, ss: Seq<Seq<usize>>)
    requires
        is_run::<CocktailSort>(ms, ss),
        ms[0] == cocktail_initial(),
        ms.last().status.finished,
    ensures
        ms.last().status.swaps == counted(inversions(ss[0]) as int),
{
    let k = ms.len() - 1;
    lemma_cocktail_swaps(ms, ss, k);
    lemma_run_point::<CocktailSort>(ms, ss, k);
    assert(sorted(ss[k]));
    lemma_sorted_no_inversions(ss[k]);
}

impl CocktailSort {
    /// A machine that has not run yet.
    pub fn new() -> (r: Self)
        ensures
            r@ == cocktail_initial(),
    {
        CocktailSort {
            status: Status::new(),
            start: 0,
            end: 0,
            current: 0,
            forward: true,
            swapped: false,
        }
    }

    /// Opens the window over a sequence of `array_len` values.
    fn initialize(&mut self, array_len: usize)
        requires
            array_len >= 2,
        ensures
            final(self)@ == (CocktailModel {
                status: old(self)@.status.idle(),
                start: 0,
                end: array_len - 1,
                current: 0,
                forward: true,
                swapped: false,
            }),
    {
        self.status = self.status.note_idle();
        self.start = 0;
        self.end = array_len - 1;
        self.swapped = false;
        self.forward = true;
        self.current = 0;
    }
}

impl Sorter for CocktailSort {
    open spec fn origin(m: CocktailModel) -> CocktailModel {
        cocktail_initial()
    }

    open spec fn status(m: CocktailModel) -> Status {
        m.status
    }

    open spec fn inv(m: CocktailModel, s: Seq<usize>) -> bool {
        cocktail_inv(m, s)
    }

    open spec fn content(m: CocktailModel, s: Seq<usize>) -> Multiset<usize> {
        s.to_multiset()
    }

    open spec fn step_spec(
        m: CocktailModel,
        s: Seq<usize>,
        m2: CocktailModel,
        s2: Seq<usize>,
    ) -> bool {
        (m2, s2) == cocktail_next(m, s)
    }

    open spec fn deterministic(m: CocktailModel) -> bool {
        true
    }

    open spec fn budget(m: CocktailModel, s: Seq<usize>) -> nat {
        cocktail_budget(m, s)
    }

    proof fn lemma_initial(m: CocktailModel, s: Seq<usize>) {
    }

    proof fn lemma_origin(m: CocktailModel) {
    }

    proof fn lemma_inv(m: CocktailModel, s: Seq<usize>) {
    }

    proof fn lemma_step(m: CocktailModel, s: Seq<usize>, m2: CocktailModel, s2: Seq<usize>) {
        lemma_cocktail_next(m, s);
    }

    proof fn lemma_progress(m: CocktailModel, s: Seq<usize>, m2: CocktailModel, s2: Seq<usize>) {
        lemma_cocktail_progress(m, s);
    }

    proof fn lemma_deterministic(
        m: CocktailModel,
        s: Seq<usize>,
        m2: CocktailModel,
        s2: Seq<usize>,
        m3: CocktailModel,
        s3: Seq<usize>,
    ) {
    }

    fn new() -> (r: Self) {
        CocktailSort::new()
    }

    fn special(&self) -> (r: (usize, usize)) {
        self.status.special
    }

    fn reason(&self) -> (r: Reasons) {
        self.status.reason
    }

    fn step(&mut self, array: &mut Vec<usize>) -> (done: bool) {
        proof {
            if !self.status.finished {
                lemma_cocktail_progress(self@, array@);
            }
            lemma_cocktail_next(self@, array@);
        }
        if self.status.finished {
            return true;
        }
        if array.len() <= 1 {
            self.status = self.status.note_idle().note_finish();
            return true;
        }
        if self.end == 0 {
            self.initialize(array.len());
            return false;
        }
        if self.forward {
            let i = self.current;
            let out = array[i] > array[i + 1];
            if out {
                swap(array, i, i + 1);
            }
            self.status = self.status.note_visit(i, i + 1, out);
            self.swapped = self.swapped || out;
            if i + 1 == self.end {
                self.end = self.end - 1;
                self.forward = false;
                self.current = self.end;
                if self.start >= self.end {
                    self.status = self.status.note_finish();
                }
            } else {
                self.current = i + 1;
            }
        } else {
            let i = self.current - 1;
            let out = array[i] > array[i + 1];
            if out {
                swap(array, i, i + 1);
            }
            self.status = self.status.note_visit(i, i + 1, out);
            self.swapped = self.swapped || out;
            if i == self.start {
                self.start = self.start + 1;
                if !self.swapped || self.start >= self.end {
                    self.status = self.status.note_finish();
                }
                self.forward = true;
                self.swapped = false;
                self.current = self.start;
            } else {
                self.current = i;
            }
        }
        self.status.finished
    }

    fn reset_state(&mut self) {
        *self = CocktailSort::new();
    }

    fn is_finished(&self) -> (r: bool) {
        self.status.finished
    }

    fn comparisons(&self) -> (r: usize) {
        self.status.comparisons
    }

    fn swaps(&self) -> (r: usize) {
        self.status.swaps
    }
}

} // verus!
