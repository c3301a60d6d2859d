//! Quicksort, driven from an explicit list of pending ranges: each step
//! partitions one range around its last value.

use super::at_least_zero;
use super::{exchange, highlight_valid, lemma_exchange, sorted, swap, Reasons, Sorter, Status};
use vstd::multiset::Multiset;
use vstd::prelude::*;

verus! {

/// The state of a quicksort between two steps. An entry `(low, high)` of
/// the stack stands for the positions from `low` to `high`, which are still
/// to be partitioned.
pub struct QuickSort {
    status: Status,
    partition_stack: Vec<(usize, usize)>,
}

/// The configuration of a quicksort: its status and its pending ranges,
/// the next one last.
pub struct QuickModel {
    pub status: Status,
    pub stack: Seq<(usize, usize)>,
}

impl View for QuickSort {
    type V = QuickModel;

    closed spec fn view(&self) -> QuickModel {
        QuickModel { status: self.status, stack: self.partition_stack@ }
    }
}

/// The configuration before the first step.
pub open spec fn quick_initial() -> QuickModel {
    QuickModel { status: Status::fresh(), stack: Seq::empty() }
}

/// The scan of a partition pass over the positions from `low` up to, but
/// not including, `j`, with the value at `high` as the pivot: the sequence
/// it leaves, and the position behind the values found to be at most the
/// pivot, which it has gathered at the front of the range.
pub open spec fn lomuto_scan(s: Seq<usize>, low: int, high: int, j: int) -> (Seq<usize>, int)
    decreases j - low,
{
    if j <= low {
        (s, low)
    } else {
        let (t, i) = lomuto_scan(s, low, high, j - 1);
        if t[j - 1] <= t[high] {
            (exchange(t, i, j - 1), i + 1)
        } else {
            (t, i)
        }
    }
}

/// A whole partition pass over the positions from `low` to `high`: the
/// scan, and then the pivot exchanged into the position behind the values
/// that are at most it. Gives the sequence and the pivot's position.
pub open spec fn partitioned(s: Seq<usize>, low: int, high: int) -> (Seq<usize>, int) {
    let (t, i) = lomuto_scan(s, low, high, high);
    (exchange(t, i, high), i)
}

/// One step of the sort.
///
/// A sequence of fewer than two values is complete at once. The first step
/// on a longer one enters the whole sequence as a pending range. Every
/// step takes the last pending range and partitions it, with one
/// comparison for each value but the pivot and one exchange for placing
/// the pivot. Of the parts on either side of the pivot, those of two values
/// or more become pending, the left one last and so next. The sort is
/// complete when no range is pending.
pub open spec fn quick_next(m: QuickModel, s: Seq<usize>) -> (QuickModel, Seq<usize>) {
    if m.status.finished {
        (m, s)
    } else if s.len() <= 1 {
        (QuickModel { status: m.status.idle().finish(), ..m }, s)
    } else {
        let stack = if m.stack.len() == 0 {
            seq![(0usize, (s.len() - 1) as usize)]
        } else {
            m.stack
        };
        let (low, high) = stack.last();
        let (s2, p) = partitioned(s, low as int, high as int);
        let stack1 = if p + 1 < high {
            stack.drop_last().push(((p + 1) as usize, high))
        } else {
            stack.drop_last()
        };
        let stack2 = if low + 1 < p {
            stack1.push((low, (p - 1) as usize))
        } else {
            stack1
        };
        let status = m.status.after_work(low as int, high as int, (high - low) as nat, 1);
        (
            QuickModel {
                status: if stack2.len() == 0 {
                    status.finish()
                } else {
                    status
                },
                stack: stack2,
            },
            s2,
        )
    }
}

/// Some pending range holds both `i` and `j`.
pub open spec fn covered(stack: Seq<(usize, usize)>, i: int, j: int) -> bool {
    exists|k: int| 0 <= k < stack.len() && (#[trigger] stack[k]).0 <= i && j <= stack[k].1
}

/// The pending ranges lie in the sequence, hold two positions or more, and
/// each lies wholly before those entered earlier; two values that no
/// pending range holds together are in order.
pub open spec fn pending(stack: Seq<(usize, usize)>, s: Seq<usize>) -> bool {
    &&& forall|k: int| 0 <= k < stack.len() ==> (#[trigger] stack[k]).0 < stack[k].1 < s.len()
    &&& forall|k: int, l: int|
        0 <= k < l < stack.len() ==> (#[trigger] stack[l]).1 < (#[trigger] stack[k]).0
    &&& forall|i: int, j: int| 0 <= i < j < s.len() && !covered(stack, i, j) ==> s[i] <= s[j]
}

/// The configurations that a run over `s` can be in.
pub open spec fn quick_inv(m: QuickModel, s: Seq<usize>) -> bool {
    &&& s.len() <= usize::MAX
    &&& highlight_valid(m.status.special, s.len())
    &&& m.status.finished ==> sorted(s)
    &&& !m.status.finished && m.stack.len() > 0 ==> s.len() >= 2 && pending(m.stack, s)
}

/// The value `v` occurs in `s` between the positions `lo` and `hi`.
pub open spec fn occurs(s: Seq<usize>, lo: int, hi: int, v: usize) -> bool {
    exists|x: int| lo <= x <= hi && #[trigger] s[x] == v
}

/// What the scan has achieved when it has come to `j`.
pub proof fn lemma_lomuto_scan(s: Seq<usize>, low: int, high: int, j: int)
    requires
        0 <= low <= j <= high < s.len(),
    ensures
        lomuto_scan(s, low, high, j).0.len() == s.len(),
        lomuto_scan(s, low, high, j).0.to_multiset() == s.to_multiset(),
        low <= lomuto_scan(s, low, high, j).1 <= j,
        forall|x: int|
            0 <= x < s.len() && (x < low || j <= x) ==> #[trigger] lomuto_scan(s, low, high, j).0[x]
                == s[x],
        forall|x: int|
            low <= x < lomuto_scan(s, low, high, j).1 ==> #[trigger] lomuto_scan(
                s,
                low,
                high,
                j,
            ).0[x] <= s[high],
        forall|x: int|
            lomuto_scan(s, low, high, j).1 <= x < j ==> #[trigger] lomuto_scan(s, low, high, j).0[x]
                > s[high],
        forall|x: int|
            low <= x <= high ==> occurs(s, low, high, #[trigger] lomuto_scan(s, low, high, j).0[x]),
    decreases j - low,
{
    if j > low {
        lemma_lomuto_scan(s, low, high, j - 1);
        let (t, i) = lomuto_scan(s, low, high, j - 1);
        let (t2, i2) = lomuto_scan(s, low, high, j);
        if t[j - 1] <= t[high] {
            lemma_exchange(t, i, j - 1);
            assert forall|x: int| low <= x <= high implies occurs(s, low, high, #[trigger] t2[x]) by {
                if x == i {
                    assert(occurs(s, low, high, t[j - 1]));
                } else if x == j - 1 {
                    assert(occurs(s, low, high, t[i]));
                } else {
                    assert(occurs(s, low, high, t[x]));
                }
            }
        }
    } else {
        assert forall|x: int| low <= x <= high implies occurs(s, low, high, #[trigger] s[x]) by {
        }
    }
}

/// What a partition pass achieves: the pivot stands between the values
/// that are at most it and the larger ones, the range holds the values it
/// held, and the rest of the sequence is untouched.
pub proof fn lemma_partitioned(s: Seq<usize>, low: int, high: int)
    requires
        0 <= low <= high < s.len(),
    ensures
        partitioned(s, low, high).0.len() == s.len(),
        partitioned(s, low, high).0.to_multiset() == s.to_multiset(),
        low <= partitioned(s, low, high).1 <= high,
        forall|x: int|
            0 <= x < s.len() && (x < low || high < x) ==> #[trigger] partitioned(s, low, high).0[x]
                == s[x],
        forall|x: int|
            low <= x < partitioned(s, low, high).1 ==> #[trigger] partitioned(s, low, high).0[x]
                <= partitioned(s, low, high).0[partitioned(s, low, high).1],
        forall|x: int|
            partitioned(s, low, high).1 < x <= high ==> #[trigger] partitioned(s, low, high).0[x]
                >= partitioned(s, low, high).0[partitioned(s, low, high).1],
        forall|x: int|
            low <= x <= high ==> occurs(s, low, high, #[trigger] partitioned(s, low, high).0[x]),
{
    lemma_lomuto_scan(s, low, high, high);
    let (t, i) = lomuto_scan(s, low, high, high);
    let (s2, p) = partitioned(s, low, high);
    lemma_exchange(t, i, high);
    assert forall|x: int| low <= x <= high implies occurs(s, low, high, #[trigger] s2[x]) by {
        if x == i {
            assert(occurs(s, low, high, t[high]));
        } else if x == high {
            assert(occurs(s, low, high, t[i]));
        } else {
            assert(occurs(s, low, high, t[x]));
        }
    }
}

/// A step of the model keeps the invariant, the length and the values.
#[verifier::rlimit(50)]
pub proof fn lemma_quick_next(m: QuickModel, s: Seq<usize>)
    requires
        quick_inv(m, s),
    ensures
        quick_inv(quick_next(m, s).0, quick_next(m, s).1),
        quick_next(m, s).1.len() == s.len(),
        quick_next(m, s).1.to_multiset() == s.to_multiset(),
        m.status.comparisons <= quick_next(m, s).0.status.comparisons,
        m.status.swaps <= quick_next(m, s).0.status.swaps,
{
    if !m.status.finished && s.len() >= 2 {
        let stack = if m.stack.len() == 0 {
            seq![(0usize, (s.len() - 1) as usize)]
        } else {
            m.stack
        };
        assert(pending(stack, s)) by {
            if m.stack.len() == 0 {
                assert forall|i: int, j: int| 0 <= i < j < s.len() implies covered(stack, i, j) by {
                    assert(stack[0].0 <= i && j <= stack[0].1);
                }
            }
        }
        let top = stack.len() - 1;
        let (low, high) = stack.last();
        let rest = stack.drop_last();
        lemma_partitioned(s, low as int, high as int);
        let (s2, p) = partitioned(s, low as int, high as int);
        let stack1 = if p + 1 < high {
            rest.push(((p + 1) as usize, high))
        } else {
            rest
        };
        let stack2 = if low + 1 < p {
            stack1.push((low, (p - 1) as usize))
        } else {
            stack1
        };
        assert(stack[top] == (low, high));
        assert forall|k: int| 0 <= k < top implies #[trigger] stack2[k] == stack[k] by {
            assert(rest[k] == stack[k]);
        }
        assert forall|i: int, j: int| 0 <= i < j < s.len() && !covered(stack2, i, j) implies s2[i]
            <= s2[j] by {
            if low <= i && j <= high {
                if j < p {
                    assert(low + 1 < p);
                    let k = stack2.len() - 1;
                    assert(stack2[k].0 <= i && j <= stack2[k].1);
                } else if p < i {
                    assert(p + 1 < high);
                    let k = top;
                    assert(stack2[k].0 <= i && j <= stack2[k].1);
                }
            } else {
                if covered(stack, i, j) {
                    let k = choose|k: int|
                        0 <= k < stack.len() && (#[trigger] stack[k]).0 <= i && j <= stack[k].1;
                    assert(k < top);
                    assert(stack2[k].0 <= i && j <= stack2[k].1);
                }
                if low <= i <= high {
                    assert(occurs(s, low as int, high as int, s2[i]));
                    let x = choose|x: int| low <= x <= high && #[trigger] s[x] == s2[i];
                    if covered(stack, x, j) {
                        let k = choose|k: int|
                            0 <= k < stack.len() && (#[trigger] stack[k]).0 <= x && j <= stack[k].1;
                        if k < top {
                            assert(stack[top].1 < stack[k].0);
                        }
                    }
                } else if low <= j <= high {
                    assert(occurs(s, low as int, high as int, s2[j]));
                    let x = choose|x: int| low <= x <= high && #[trigger] s[x] == s2[j];
                    if covered(stack, i, x) {
                        let k = choose|k: int|
                            0 <= k < stack.len() && (#[trigger] stack[k]).0 <= i && x <= stack[k].1;
                        if k < top {
                            assert(stack[top].1 < stack[k].0);
                        }
                    }
                }
            }
        }
        if stack2.len() == 0 {
            assert forall|i: int, j: int| 0 <= i <= j < s.len() implies s2[i] <= s2[j] by {
                if i < j {
                    assert(!covered(stack2, i, j));
                }
            }
        }
    }
}

/// The number of positions in the pending ranges `stack`.
pub open spec fn pending_size(stack: Seq<(usize, usize)>) -> nat
    decreases stack.len(),
{
    if stack.len() == 0 {
        0
    } else {
        pending_size(stack.drop_last()) + at_least_zero(stack.last().1 - stack.last().0 + 1)
    }
}

/// A range entered last adds its positions to the pending ones.
proof fn lemma_pending_push(stack: Seq<(usize, usize)>, x: (usize, usize))
    ensures
        pending_size(stack.push(x)) == pending_size(stack) + at_least_zero(x.1 - x.0 + 1),
{
    assert(stack.push(x).drop_last() =~= stack);
}

/// A bound on the steps that are left.
pub open spec fn quick_budget(m: QuickModel, s: Seq<usize>) -> nat {
    if m.status.finished {
        0
    } else {
        1 + if m.stack.len() == 0 {
            s.len()
        } else {
            pending_size(m.stack)
        }
    }
}

/// Every step from a configuration that is not complete lowers the bound.
pub proof fn lemma_quick_progress(m: QuickModel, s: Seq<usize>)
    requires
        quick_inv(m, s),
        !m.status.finished,
    ensures
        quick_budget(quick_next(m, s).0, quick_next(m, s).1) < quick_budget(m, s),
{
    if s.len() >= 2 {
        let stack = if m.stack.len() == 0 {
            seq![(0usize, (s.len() - 1) as usize)]
        } else {
            m.stack
        };
        let (low, high) = stack.last();
        let rest = stack.drop_last();
        if m.stack.len() == 0 {
            assert(rest =~= Seq::empty());
            assert(pending_size(rest) == 0);
        }
        assert(stack[stack.len() - 1] == (low, high));
        lemma_partitioned(s, low as int, high as int);
        let (s2, p) = partitioned(s, low as int, high as int);
        let stack1 = if p + 1 < high {
            rest.push(((p + 1) as usize, high))
        } else {
            rest
        };
        let stack2 = if low + 1 < p {
            stack1.push((low, (p - 1) as usize))
        } else {
            stack1
        };
        lemma_pending_push(rest, (low, high));
        assert(rest.push((low, high)) =~= stack);
        lemma_pending_push(rest, ((p + 1) as usize, high));
        lemma_pending_push(stack1, (low, (p - 1) as usize));
    }
}

impl QuickSort {
    /// Partitions the positions from `low` to `high` of `array` around the
    /// value at `high`, and returns the position where that value comes to
    /// stand. The pass counts one comparison for each value but the pivot
    /// and one exchange for placing the pivot, and highlights its range.
    pub fn partition(&mut self, array: &mut Vec<usize>, low: usize, high: usize) -> (pivot: usize)
        requires
            low <= high < old(array)@.len(),
        ensures
            (final(array)@, pivot as int) == partitioned(old(array)@, low as int, high as int),
            final(self)@ == (QuickModel {
                status: old(self)@.status.after_work(
                    low as int,
                    high as int,
                    (high - low) as nat,
                    1,
                ),
                ..old(self)@
            }),
    {
        let mut i = low;
        let mut j = low;
        while j < high
            invariant
                low <= i <= j <= high < array@.len(),
                array@.len() == old(array)@.len(),
                (array@, i as int) == lomuto_scan(old(array)@, low as int, high as int, j as int),
            decreases high - j,
        {
            proof {
                lemma_lomuto_scan(old(array)@, low as int, high as int, j as int);
            }
            if array[j] <= array[high] {
                swap(array, i, j);
                i = i + 1;
            }
            j = j + 1;
        }
        swap(array, i, high);
        self.status = self.status.note_work(low, high, high - low, 1);
        i
    }
}

impl Sorter for QuickSort {
    open spec fn origin(m: QuickModel) -> QuickModel {
        quick_initial()
    }

    open spec fn status(m: QuickModel) -> Status {
        m.status
    }

    open spec fn inv(m: QuickModel, s: Seq<usize>) -> bool {
        quick_inv(m, s)
    }

    open spec fn content(m: QuickModel, s: Seq<usize>) -> Multiset<usize> {
        s.to_multiset()
    }

    open spec fn step_spec(m: QuickModel, s: Seq<usize>, m2: QuickModel, s2: Seq<usize>) -> bool {
        (m2, s2) == quick_next(m, s)
    }

    open spec fn deterministic(m: QuickModel) -> bool {
        true
    }

    open spec fn budget(m: QuickModel, s: Seq<usize>) -> nat {
        quick_budget(m, s)
    }

    proof fn lemma_initial(m: QuickModel, s: Seq<usize>) {
    }

    proof fn lemma_origin(m: QuickModel) {
    }

    proof fn lemma_inv(m: QuickModel, s: Seq<usize>) {
    }

    proof fn lemma_step(m: QuickModel, s: Seq<usize>, m2: QuickModel, s2: Seq<usize>) {
        lemma_quick_next(m, s);
    }

    proof fn lemma_progress(m: QuickModel, s: Seq<usize>, m2: QuickModel, s2: Seq<usize>) {
        lemma_quick_progress(m, s);
    }

    proof fn lemma_deterministic(
        m: QuickModel,
        s: Seq<usize>,
        m2: QuickModel,
        s2: Seq<usize>,
        m3: QuickModel,
        s3: Seq<usize>,
    ) {
    }

    fn new() -> (r: Self) {
        QuickSort { status: Status::new(), partition_stack: Vec::new() }
    }

    fn special(&self) -> (r: (usize, usize)) {
        self.status.special
    }

    fn reason(&self) -> (r: Reasons) {
        self.status.reason
    }

    fn step(&mut self, array: &mut Vec<usize>) -> (done: bool) {
        proof {
            if !self.status.finished {
                lemma_quick_progress(self@, array@);
            }
            lemma_quick_next(self@, array@);
        }
        if self.status.finished {
            return true;
        }
        if array.len() <= 1 {
            self.status = self.status.note_idle().note_finish();
            return true;
        }
        if self.partition_stack.len() == 0 {
            self.partition_stack.push((0, array.len() - 1));
            assert(self.partition_stack@ =~= seq![(0usize, (array@.len() - 1) as usize)]);
        }
        let ghost stack = self.partition_stack@;
        let (low, high) = self.partition_stack.pop().unwrap();
        assert(self.partition_stack@ =~= stack.drop_last());
        assert(stack[stack.len() - 1] == (low, high));
        proof {
            lemma_partitioned(array@, low as int, high as int);
        }
        let pivot = self.partition(array, low, high);
        if pivot + 1 < high {
            self.partition_stack.push((pivot + 1, high));
        }
        if low + 1 < pivot {
            self.partition_stack.push((low, pivot - 1));
        }
        if self.partition_stack.len() == 0 {
            self.status = self.status.note_finish();
        }
        self.status.finished
    }

    fn reset_state(&mut self) {
        *self = <QuickSort as Sorter>::new();
    }

    fn is_finished(&self) -> (r: bool) {
        self.status.finished
    }

    fn comparisons(&self) -> (r: usize) {
        self.status.comparisons
    }

    fn swaps(&self) -> (r: usize) {
        self.status.swaps
    }
}

} // verus!
