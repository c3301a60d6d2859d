//! Merge sort, driven from an explicit list of pending ranges: a range is
//! first split in two, and merged once both halves are sorted.

use super::at_least_zero;
use super::{highlight_valid, sorted, sorted_range, Reasons, Sorter, Status};
use vstd::multiset::Multiset;
use vstd::prelude::*;

verus! {

/// The state of a merge sort between two steps.
///
/// An entry `(low, high, phase)` of the stack stands for the positions from
/// `low` to `high`: with phase 0 they are still to be split, with phase 1
/// their two halves are to be merged.
pub struct MergeSort {
    status: Status,
    stack: Vec<(usize, usize, usize)>,
    temp: Vec<usize>,
}

/// The configuration of a merge sort: its status and its pending ranges,
/// the next one last. The scratch buffer is no part of it: a step makes it
/// anew where its length is not that of the sequence, and a merge writes
/// each of its positions before it reads it.
pub struct MergeModel {
    pub status: Status,
    pub stack: Seq<(usize, usize, usize)>,
}

impl View for MergeSort {
    type V = MergeModel;

    closed spec fn view(&self) -> MergeModel {
        MergeModel { status: self.status, stack: self.stack@ }
    }
}

/// The configuration before the first step.
pub open spec fn merge_initial() -> MergeModel {
    MergeModel { status: Status::fresh(), stack: Seq::empty() }
}

/// The last position of the left half of the range from `lo` to `hi`.
pub open spec fn midpoint(lo: int, hi: int) -> int {
    lo + (hi - lo) / 2
}

/// The values of `a` and `b` in one sequence: at each place the smaller of
/// the two first values not yet taken, the one of `a` where they are equal.
pub open spec fn merge_seq(a: Seq<usize>, b: Seq<usize>) -> Seq<usize>
    decreases a.len() + b.len(),
{
    if a.len() == 0 {
        b
    } else if b.len() == 0 {
        a
    } else if a[0] <= b[0] {
        seq![a[0]] + merge_seq(a.skip(1), b)
    } else {
        seq![b[0]] + merge_seq(a, b.skip(1))
    }
}

/// The number of comparisons that merging `a` and `b` takes: one for each
/// value placed while neither sequence is used up.
pub open spec fn merge_cost(a: Seq<usize>, b: Seq<usize>) -> nat
    decreases a.len() + b.len(),
{
    if a.len() == 0 || b.len() == 0 {
        0
    } else if a[0] <= b[0] {
        1 + merge_cost(a.skip(1), b)
    } else {
        1 + merge_cost(a, b.skip(1))
    }
}

/// `s` with the positions from `lo` to `hi` replaced by the merge of the
/// halves that end and begin at `mid`.
pub open spec fn merged(s: Seq<usize>, lo: int, mid: int, hi: int) -> Seq<usize> {
    s.subrange(0, lo) + merge_seq(s.subrange(lo, mid + 1), s.subrange(mid + 1, hi + 1))
        + s.subrange(hi + 1, s.len() as int)
}

/// One step of the sort.
///
/// A sequence of fewer than two values is complete at once. The first step
/// on a longer one enters the whole sequence as a range to split. Every
/// step takes the last pending range. A range to split of two values or
/// more is replaced by the order to merge it, its right half and, last and
/// so next, its left half; one of a single value is dropped. A range to
/// merge has its halves merged in place. The sort is complete when no
/// range is pending.
pub open spec fn merge_next(m: MergeModel, s: Seq<usize>) -> (MergeModel, Seq<usize>) {
    if m.status.finished {
        (m, s)
    } else if s.len() <= 1 {
        (MergeModel { status: m.status.idle().finish(), ..m }, s)
    } else {
        let stack = if m.stack.len() == 0 {
            seq![(0usize, (s.len() - 1) as usize, 0usize)]
        } else {
            m.stack
        };
        let (low, high, phase) = stack.last();
        let rest = stack.drop_last();
        let mid = midpoint(low as int, high as int);
        if phase == 0 {
            let status = m.status.after_work(low as int, high as int, 0, 0);
            if low < high {
                (
                    MergeModel {
                        status,
                        stack: rest.push((low, high, 1usize)).push(
                            ((mid + 1) as usize, high, 0usize),
                        ).push((low, mid as usize, 0usize)),
                    },
                    s,
                )
            } else {
                (
                    MergeModel {
                        status: if rest.len() == 0 {
                            status.finish()
                        } else {
                            status
                        },
                        stack: rest,
                    },
                    s,
                )
            }
        } else {
            let status = m.status.after_work(
                low as int,
                high as int,
                merge_cost(
                    s.subrange(low as int, mid + 1),
                    s.subrange(mid + 1, high as int + 1),
                ),
                1,
            );
            (
                MergeModel {
                    status: if rest.len() == 0 {
                        status.finish()
                    } else {
                        status
                    },
                    stack: rest,
                },
                merged(s, low as int, mid, high as int),
            )
        }
    }
}

/// The pending ranges `k` are in order behind a range from `lo` to `hi`
/// that is about to be sorted: the next one is either the right half that
/// belongs to it, followed by the order to merge the two, or the order to
/// merge it, as a right half, with a left half that is sorted already; and
/// with no range pending, `lo` to `hi` is the whole sequence.
pub open spec fn expects(k: Seq<(usize, usize, usize)>, lo: int, hi: int, s: Seq<usize>) -> bool
    decreases k.len(),
{
    if k.len() == 0 {
        lo == 0 && hi == s.len() - 1
    } else {
        let t = k.last();
        let below = k.drop_last();
        if t.2 == 0 {
            &&& t.0 == hi + 1
            &&& t.0 <= t.1 < s.len()
            &&& below.len() > 0
            &&& below.last() == (lo as usize, t.1, 1usize)
            &&& 0 <= lo <= hi
            &&& midpoint(lo, t.1 as int) == hi
            &&& expects(below.drop_last(), lo, t.1 as int, s)
        } else {
            &&& t.2 == 1
            &&& t.1 == hi
            &&& t.0 < t.1
            &&& lo == midpoint(t.0 as int, t.1 as int) + 1
            &&& sorted_range(s, t.0 as int, lo - 1)
            &&& expects(below, t.0 as int, t.1 as int, s)
        }
    }
}

/// The pending ranges `k` are in order: the next one lies in the sequence,
/// has sorted halves if it is to be merged, and the others are in order
/// behind it.
pub open spec fn ready(k: Seq<(usize, usize, usize)>, s: Seq<usize>) -> bool {
    &&& k.len() > 0
    &&& k.last().0 <= k.last().1 < s.len()
    &&& expects(k.drop_last(), k.last().0 as int, k.last().1 as int, s)
    &&& k.last().2 != 0 ==> {
        &&& k.last().2 == 1
        &&& k.last().0 < k.last().1
        &&& sorted_range(
            s,
            k.last().0 as int,
            midpoint(k.last().0 as int, k.last().1 as int),
        )
        &&& sorted_range(
            s,
            midpoint(k.last().0 as int, k.last().1 as int) + 1,
            k.last().1 as int,
        )
    }
}

/// The configurations that a run over `s` can be in.
pub open spec fn merge_inv(m: MergeModel, s: Seq<usize>) -> bool {
    &&& s.len() <= usize::MAX
    &&& highlight_valid(m.status.special, s.len())
    &&& m.status.finished ==> sorted(s)
    &&& !m.status.finished && m.stack.len() > 0 ==> s.len() >= 2 && ready(m.stack, s)
}

/// The merge of two sequences has the length and the values of both, and
/// takes at most one comparison for each value.
pub proof fn lemma_merge_seq(a: Seq<usize>, b: Seq<usize>)
    ensures
        merge_seq(a, b).len() == a.len() + b.len(),
        merge_seq(a, b).to_multiset() == a.to_multiset().add(b.to_multiset()),
        merge_cost(a, b) <= a.len() + b.len(),
    decreases a.len() + b.len(),
{
    broadcast use vstd::multiset::group_multiset_axioms;
    broadcast use vstd::seq_lib::group_to_multiset_ensures;

    if a.len() == 0 {
        assert(a.to_multiset().len() == 0);
        assert(a.to_multiset() =~= Multiset::<usize>::empty());
        assert(b.to_multiset() =~= a.to_multiset().add(b.to_multiset()));
    } else if b.len() == 0 {
        assert(b.to_multiset().len() == 0);
        assert(b.to_multiset() =~= Multiset::<usize>::empty());
        assert(a.to_multiset() =~= a.to_multiset().add(b.to_multiset()));
    } else if a[0] <= b[0] {
        let rest = merge_seq(a.skip(1), b);
        lemma_merge_seq(a.skip(1), b);
        vstd::seq_lib::lemma_multiset_commutative(seq![a[0]], rest);
        vstd::seq_lib::lemma_multiset_commutative(seq![a[0]], a.skip(1));
        assert(a =~= seq![a[0]] + a.skip(1));
        assert(merge_seq(a, b).to_multiset() =~= a.to_multiset().add(b.to_multiset()));
    } else {
        let rest = merge_seq(a, b.skip(1));
        lemma_merge_seq(a, b.skip(1));
        vstd::seq_lib::lemma_multiset_commutative(seq![b[0]], rest);
        vstd::seq_lib::lemma_multiset_commutative(seq![b[0]], b.skip(1));
        assert(b =~= seq![b[0]] + b.skip(1));
        assert(merge_seq(a, b).to_multiset() =~= a.to_multiset().add(b.to_multiset()));
    }
}

/// A value that is at most every value of `a` and of `b` is at most every
/// value of their merge.
proof fn lemma_merge_lower(a: Seq<usize>, b: Seq<usize>, x: usize)
    requires
        forall|i: int| 0 <= i < a.len() ==> x <= #[trigger] a[i],
        forall|i: int| 0 <= i < b.len() ==> x <= #[trigger] b[i],
    ensures
        forall|i: int| 0 <= i < merge_seq(a, b).len() ==> x <= #[trigger] merge_seq(a, b)[i],
    decreases a.len() + b.len(),
{
    if a.len() > 0 && b.len() > 0 {
        if a[0] <= b[0] {
            let t = a.skip(1);
            assert forall|i: int| 0 <= i < t.len() implies x <= #[trigger] t[i] by {
                assert(t[i] == a[i + 1]);
            }
            lemma_merge_lower(t, b, x);
            let rest = merge_seq(t, b);
            assert forall|i: int| 0 <= i < merge_seq(a, b).len() implies x <= #[trigger] merge_seq(
                a,
                b,
            )[i] by {
                if i > 0 {
                    assert(merge_seq(a, b)[i] == rest[i - 1]);
                }
            }
        } else {
            let t = b.skip(1);
            assert forall|i: int| 0 <= i < t.len() implies x <= #[trigger] t[i] by {
                assert(t[i] == b[i + 1]);
            }
            lemma_merge_lower(a, t, x);
            let rest = merge_seq(a, t);
            assert forall|i: int| 0 <= i < merge_seq(a, b).len() implies x <= #[trigger] merge_seq(
                a,
                b,
            )[i] by {
                if i > 0 {
                    assert(merge_seq(a, b)[i] == rest[i - 1]);
                }
            }
        }
    }
}

/// The merge of two sorted sequences is sorted.
pub proof fn lemma_merge_sorted(a: Seq<usize>, b: Seq<usize>)
    requires
        sorted(a),
        sorted(b),
    ensures
        sorted(merge_seq(a, b)),
    decreases a.len() + b.len(),
{
    if a.len() > 0 && b.len() > 0 {
        let m = merge_seq(a, b);
        if a[0] <= b[0] {
            let t = a.skip(1);
            assert forall|i: int, j: int| 0 <= i <= j < t.len() implies t[i] <= t[j] by {
                assert(t[i] == a[i + 1] && t[j] == a[j + 1]);
            }
            assert forall|i: int| 0 <= i < t.len() implies a[0] <= #[trigger] t[i] by {
                assert(t[i] == a[i + 1]);
            }
            lemma_merge_sorted(t, b);
            lemma_merge_lower(t, b, a[0]);
            let rest = merge_seq(t, b);
            assert forall|i: int, j: int| 0 <= i <= j < m.len() implies m[i] <= m[j] by {
                if i > 0 {
                    assert(rest[i - 1] <= rest[j - 1]);
                } else if j > 0 {
                    assert(a[0] <= rest[j - 1]);
                }
            }
        } else {
            let t = b.skip(1);
            assert forall|i: int, j: int| 0 <= i <= j < t.len() implies t[i] <= t[j] by {
                assert(t[i] == b[i + 1] && t[j] == b[j + 1]);
            }
            assert forall|i: int| 0 <= i < t.len() implies b[0] <= #[trigger] t[i] by {
                assert(t[i] == b[i + 1]);
            }
            lemma_merge_sorted(a, t);
            lemma_merge_lower(a, t, b[0]);
            let rest = merge_seq(a, t);
            assert forall|i: int, j: int| 0 <= i <= j < m.len() implies m[i] <= m[j] by {
                if i > 0 {
                    assert(rest[i - 1] <= rest[j - 1]);
                } else if j > 0 {
                    assert(b[0] <= rest[j - 1]);
                }
            }
        }
    }
}

/// Merging two sorted halves in place sorts their range, keeps the length
/// and the values of the sequence, and leaves the other positions alone.
pub proof fn lemma_merged(s: Seq<usize>, lo: int, mid: int, hi: int)
    requires
        0 <= lo <= mid < hi < s.len(),
        sorted_range(s, lo, mid),
        sorted_range(s, mid + 1, hi),
    ensures
        merged(s, lo, mid, hi).len() == s.len(),
        merged(s, lo, mid, hi).to_multiset() == s.to_multiset(),
        sorted_range(merged(s, lo, mid, hi), lo, hi),
        forall|i: int|
            0 <= i < s.len() && (i < lo || hi < i) ==> #[trigger] merged(s, lo, mid, hi)[i] == s[i],
{
    broadcast use vstd::multiset::group_multiset_axioms;

    let a = s.subrange(lo, mid + 1);
    let b = s.subrange(mid + 1, hi + 1);
    let pre = s.subrange(0, lo);
    let post = s.subrange(hi + 1, s.len() as int);
    let mm = merge_seq(a, b);
    let s2 = merged(s, lo, mid, hi);
    lemma_merge_seq(a, b);
    assert forall|i: int, j: int| 0 <= i <= j < a.len() implies a[i] <= a[j] by {
        assert(a[i] == s[lo + i] && a[j] == s[lo + j]);
    }
    assert forall|i: int, j: int| 0 <= i <= j < b.len() implies b[i] <= b[j] by {
        assert(b[i] == s[mid + 1 + i] && b[j] == s[mid + 1 + j]);
    }
    lemma_merge_sorted(a, b);
    assert forall|i: int, j: int| lo <= i <= j <= hi implies s2[i] <= s2[j] by {
        assert(s2[i] == mm[i - lo] && s2[j] == mm[j - lo]);
    }
    assert(s =~= pre + (a + b) + post);
    vstd::seq_lib::lemma_multiset_commutative(pre + (a + b), post);
    vstd::seq_lib::lemma_multiset_commutative(pre, a + b);
    vstd::seq_lib::lemma_multiset_commutative(a, b);
    vstd::seq_lib::lemma_multiset_commutative(pre + mm, post);
    vstd::seq_lib::lemma_multiset_commutative(pre, mm);
    assert(s2.to_multiset() =~= s.to_multiset());
}

/// Ranges that are in order behind a range stay so when the sequence
/// changes within that range only.
proof fn lemma_expects_frame(
    k: Seq<(usize, usize, usize)>,
    lo: int,
    hi: int,
    s: Seq<usize>,
    s2: Seq<usize>,
)
    requires
        expects(k, lo, hi, s),
        0 <= lo <= hi < s.len(),
        s2.len() == s.len(),
        forall|i: int| 0 <= i < s.len() && (i < lo || hi < i) ==> #[trigger] s2[i] == s[i],
    ensures
        expects(k, lo, hi, s2),
    decreases k.len(),
{
    if k.len() > 0 {
        let t = k.last();
        let below = k.drop_last();
        if t.2 == 0 {
            lemma_expects_frame(below.drop_last(), lo, t.1 as int, s, s2);
        } else {
            assert forall|i: int, j: int| t.0 <= i <= j <= lo - 1 implies s2[i] <= s2[j] by {
                assert(s2[i] == s[i] && s2[j] == s[j]);
            }
            lemma_expects_frame(below, t.0 as int, t.1 as int, s, s2);
        }
    }
}

/// Once a range is sorted, the ranges in order behind it are in order, or,
/// with none pending, the whole sequence is sorted.
proof fn lemma_expects_ready(k: Seq<(usize, usize, usize)>, lo: int, hi: int, s: Seq<usize>)
    requires
        expects(k, lo, hi, s),
        0 <= lo <= hi < s.len(),
        s.len() <= usize::MAX,
        sorted_range(s, lo, hi),
    ensures
        k.len() > 0 ==> ready(k, s),
        k.len() == 0 ==> sorted(s),
{
    if k.len() > 0 {
        let t = k.last();
        let below = k.drop_last();
        if t.2 == 0 {
            assert(expects(below, t.0 as int, t.1 as int, s));
        }
    }
}

/// A step of the model keeps the invariant, the length and the values.
pub proof fn lemma_merge_next(m: MergeModel, s: Seq<usize>)
    requires
        merge_inv(m, s),
    ensures
        merge_inv(merge_next(m, s).0, merge_next(m, s).1),
        merge_next(m, s).1.len() == s.len(),
        merge_next(m, s).1.to_multiset() == s.to_multiset(),
        m.status.comparisons <= merge_next(m, s).0.status.comparisons,
        m.status.swaps <= merge_next(m, s).0.status.swaps,
{
    if !m.status.finished && s.len() >= 2 {
        let stack = if m.stack.len() == 0 {
            seq![(0usize, (s.len() - 1) as usize, 0usize)]
        } else {
            m.stack
        };
        assert(stack.drop_last().len() == 0 ==> stack.drop_last() =~= Seq::empty());
        assert(ready(stack, s));
        let (low, high, phase) = stack.last();
        let rest = stack.drop_last();
        let mid = midpoint(low as int, high as int);
        let (m2, s2) = merge_next(m, s);
        if phase == 0 {
            if low < high {
                let k1 = rest.push((low, high, 1usize));
                let k2 = k1.push(((mid + 1) as usize, high, 0usize));
                let k3 = k2.push((low, mid as usize, 0usize));
                assert(k3.drop_last() =~= k2);
                assert(k2.drop_last() =~= k1);
                assert(k1.drop_last() =~= rest);
                assert(expects(k2, low as int, mid, s));
                assert(ready(k3, s));
            } else {
                lemma_expects_ready(rest, low as int, high as int, s);
            }
        } else {
            lemma_merged(s, low as int, mid, high as int);
            lemma_expects_frame(rest, low as int, high as int, s, s2);
            lemma_expects_ready(rest, low as int, high as int, s2);
        }
    }
}

/// The number of steps that a pending range takes until it is sorted: one
/// for a merge; for a range to split, three for each of its values, less
/// two.
pub open spec fn task_cost(t: (usize, usize, usize)) -> nat {
    if t.2 == 0 {
        at_least_zero(3 * (t.1 - t.0 + 1) - 2)
    } else {
        1
    }
}

/// The number of steps that the pending ranges `stack` take together.
pub open spec fn stack_cost(stack: Seq<(usize, usize, usize)>) -> nat
    decreases stack.len(),
{
    if stack.len() == 0 {
        0
    } else {
        stack_cost(stack.drop_last()) + task_cost(stack.last())
    }
}

/// A range entered last adds its steps to those of the pending ones.
proof fn lemma_stack_cost_push(stack: Seq<(usize, usize, usize)>, x: (usize, usize, usize))
    ensures
        stack_cost(stack.push(x)) == stack_cost(stack) + task_cost(x),
{
    assert(stack.push(x).drop_last() =~= stack);
}

/// A bound on the steps that are left.
pub open spec fn merge_budget(m: MergeModel, s: Seq<usize>) -> nat {
    if m.status.finished {
        0
    } else {
        1 + if m.stack.len() == 0 {
            at_least_zero(3 * s.len() - 2)
        } else {
            stack_cost(m.stack)
        }
    }
}

/// Every step from a configuration that is not complete lowers the bound.
pub proof fn lemma_merge_progress(m: MergeModel, s: Seq<usize>)
    requires
        merge_inv(m, s),
        !m.status.finished,
    ensures
        merge_budget(merge_next(m, s).0, merge_next(m, s).1) < merge_budget(m, s),
{
    if s.len() >= 2 {
        let stack = if m.stack.len() == 0 {
            seq![(0usize, (s.len() - 1) as usize, 0usize)]
        } else {
            m.stack
        };
        assert(stack.drop_last().len() == 0 ==> stack.drop_last() =~= Seq::empty());
        assert(ready(stack, s));
        let (low, high, phase) = stack.last();
        let rest = stack.drop_last();
        let mid = midpoint(low as int, high as int);
        if m.stack.len() == 0 {
            assert(stack_cost(rest) == 0);
        }
        lemma_stack_cost_push(rest, (low, high, phase));
        assert(rest.push((low, high, phase)) =~= stack);
        if phase == 0 && low < high {
            let k1 = rest.push((low, high, 1usize));
            let k2 = k1.push(((mid + 1) as usize, high, 0usize));
            lemma_stack_cost_push(rest, (low, high, 1usize));
            lemma_stack_cost_push(k1, ((mid + 1) as usize, high, 0usize));
            lemma_stack_cost_push(k2, (low, mid as usize, 0usize));
        }
    }
}

impl MergeSort {
    /// Merges the sorted halves `start..=mid` and `mid + 1..=end` of
    /// `array` in place, and returns the number of comparisons made.
    fn merge(&mut self, array: &mut Vec<usize>, start: usize, mid: usize, end: usize) -> (compared:
        usize)
        requires
            start <= mid < end < old(array)@.len() <= usize::MAX,
            old(self).temp@.len() == old(array)@.len(),
        ensures
            final(array)@ == merged(old(array)@, start as int, mid as int, end as int),
            compared == merge_cost(
                old(array)@.subrange(start as int, mid + 1),
                old(array)@.subrange(mid + 1, end + 1),
            ),
            final(self)@ == old(self)@,
            final(self).temp@.len() == old(self).temp@.len(),
    {
        let ghost a = array@.subrange(start as int, mid + 1);
        let ghost b = array@.subrange(mid + 1, end + 1);
        let ghost whole = merge_seq(a, b);
        let ghost cost = merge_cost(a, b);
        proof {
            lemma_merge_seq(a, b);
        }
        let mut left = start;
        let mut right = mid + 1;
        let mut temp_idx = start;
        let mut compared: usize = 0;
        assert(a.skip(0) =~= a && b.skip(0) =~= b);
        assert(self.temp@.subrange(start as int, start as int) + whole =~= whole);
        while left <= mid && right <= end
            invariant
                array@.len() <= usize::MAX,
                start <= mid < end < array@.len(),
                self.temp@.len() == array@.len(),
                self@ == old(self)@,
                array@ == old(array)@,
                a == array@.subrange(start as int, mid + 1),
                b == array@.subrange(mid + 1, end + 1),
                whole == merge_seq(a, b),
                cost == merge_cost(a, b),
                start <= left <= mid + 1,
                mid + 1 <= right <= end + 1,
                temp_idx == left + right - mid - 1,
                self.temp@.subrange(start as int, temp_idx as int) + merge_seq(
                    a.skip(left - start),
                    b.skip(right - mid - 1),
                ) == whole,
                compared + merge_cost(a.skip(left - start), b.skip(right - mid - 1)) == cost,
                compared <= temp_idx - start,
            decreases end + mid + 2 - left - right,
        {
            let ghost ra = a.skip(left - start);
            let ghost rb = b.skip(right - mid - 1);
            let ghost out = self.temp@.subrange(start as int, temp_idx as int);
            assert(ra[0] == array@[left as int]);
            assert(rb[0] == array@[right as int]);
            if array[left] <= array[right] {
                self.temp[temp_idx] = array[left];
                left += 1;
                assert(ra.skip(1) =~= a.skip(left - start));
            } else {
                self.temp[temp_idx] = array[right];
                right += 1;
                assert(rb.skip(1) =~= b.skip(right - mid - 1));
            }
            temp_idx += 1;
            compared += 1;
            assert(self.temp@.subrange(start as int, temp_idx as int) + merge_seq(
                a.skip(left - start),
                b.skip(right - mid - 1),
            ) =~= out + merge_seq(ra, rb));
        }
        assert(merge_seq(a.skip(left - start), b.skip(right - mid - 1)) =~= a.skip(left - start)
            + b.skip(right - mid - 1));
        while left <= mid
            invariant
                array@.len() <= usize::MAX,
                start <= mid < end < array@.len(),
                self.temp@.len() == array@.len(),
                self@ == old(self)@,
                array@ == old(array)@,
                a == array@.subrange(start as int, mid + 1),
                b == array@.subrange(mid + 1, end + 1),
                start <= left <= mid + 1,
                mid + 1 <= right <= end + 1,
                left == mid + 1 || right == end + 1,
                temp_idx == left + right - mid - 1,
                self.temp@.subrange(start as int, temp_idx as int) + a.skip(left - start) + b.skip(
                    right - mid - 1,
                ) == whole,
            decreases mid + 1 - left,
        {
            let ghost ra = a.skip(left - start);
            let ghost out = self.temp@.subrange(start as int, temp_idx as int);
            assert(ra[0] == array@[left as int]);
            self.temp[temp_idx] = array[left];
            left += 1;
            temp_idx += 1;
            assert(self.temp@.subrange(start as int, temp_idx as int) + a.skip(left - start)
                + b.skip(right - mid - 1) =~= out + ra + b.skip(right - mid - 1));
        }
        while right <= end
            invariant
                array@.len() <= usize::MAX,
                start <= mid < end < array@.len(),
                self.temp@.len() == array@.len(),
                self@ == old(self)@,
                array@ == old(array)@,
                a == array@.subrange(start as int, mid + 1),
                b == array@.subrange(mid + 1, end + 1),
                left == mid + 1,
                mid + 1 <= right <= end + 1,
                temp_idx == left + right - mid - 1,
                self.temp@.subrange(start as int, temp_idx as int) + b.skip(right - mid - 1)
                    == whole,
            decreases end + 1 - right,
        {
            let ghost rb = b.skip(right - mid - 1);
            let ghost out = self.temp@.subrange(start as int, temp_idx as int);
            assert(rb[0] == array@[right as int]);
            self.temp[temp_idx] = array[right];
            right += 1;
            temp_idx += 1;
            assert(self.temp@.subrange(start as int, temp_idx as int) + b.skip(right - mid - 1)
                =~= out + rb);
        }
        assert(self.temp@.subrange(start as int, end + 1) =~= whole);
        let mut i = start;
        while i <= end
            invariant
                array@.len() <= usize::MAX,
                start <= i <= end + 1,
                end < array@.len(),
                array@.len() == old(array)@.len(),
                self.temp@.len() == array@.len(),
                self@ == old(self)@,
                self.temp@.subrange(start as int, end + 1) == whole,
                array@ == old(array)@.subrange(0, start as int) + self.temp@.subrange(
                    start as int,
                    i as int,
                ) + old(array)@.subrange(i as int, old(array)@.len() as int),
            decreases end + 1 - i,
        {
            let ghost before = array@;
            array[i] = self.temp[i];
            i += 1;
            assert(array@ =~= old(array)@.subrange(0, start as int) + self.temp@.subrange(
                start as int,
                i as int,
            ) + old(array)@.subrange(i as int, old(array)@.len() as int));
        }
        assert(array@ =~= merged(old(array)@, start as int, mid as int, end as int));
        compared
    }
}

impl Sorter for MergeSort {
    open spec fn origin(m: MergeModel) -> MergeModel {
        merge_initial()
    }

    open spec fn status(m: MergeModel) -> Status {
        m.status
    }

    open spec fn inv(m: MergeModel, s: Seq<usize>) -> bool {
        merge_inv(m, s)
    }

    open spec fn content(m: MergeModel, s: Seq<usize>) -> Multiset<usize> {
        s.to_multiset()
    }

    open spec fn step_spec(m: MergeModel, s: Seq<usize>, m2: MergeModel, s2: Seq<usize>) -> bool {
        (m2, s2) == merge_next(m, s)
    }

    open spec fn deterministic(m: MergeModel) -> bool {
        true
    }

    open spec fn budget(m: MergeModel, s: Seq<usize>) -> nat {
        merge_budget(m, s)
    }

    proof fn lemma_initial(m: MergeModel, s: Seq<usize>) {
    }

    proof fn lemma_origin(m: MergeModel) {
    }

    proof fn lemma_inv(m: MergeModel, s: Seq<usize>) {
    }

    proof fn lemma_step(m: MergeModel, s: Seq<usize>, m2: MergeModel, s2: Seq<usize>) {
        lemma_merge_next(m, s);
    }

    proof fn lemma_progress(m: MergeModel, s: Seq<usize>, m2: MergeModel, s2: Seq<usize>) {
        lemma_merge_progress(m, s);
    }

    proof fn lemma_deterministic(
        m: MergeModel,
        s: Seq<usize>,
        m2: MergeModel,
        s2: Seq<usize>,
        m3: MergeModel,
        s3: Seq<usize>,
    ) {
    }

    fn new() -> (r: Self) {
        MergeSort { status: Status::new(), stack: Vec::new(), temp: Vec::new() }
    }

    fn special(&self) -> (r: (usize, usize)) {
        self.status.special
    }

    fn reason(&self) -> (r: Reasons) {
        self.status.reason
    }

    fn step(&mut self, array: &mut Vec<usize>) -> (done: bool) {
        proof {
            if !self.status.finished {
                lemma_merge_progress(self@, array@);
            }
            lemma_merge_next(self@, array@);
        }
        if self.status.finished {
            return true;
        }
        if array.len() <= 1 {
            self.status = self.status.note_idle().note_finish();
            return true;
        }
        let n = array.len();
        if self.temp.len() != n {
            self.temp = vec![0usize; n];
        }
        if self.stack.len() == 0 {
            self.stack.push((0, n - 1, 0));
            assert(self.stack@ =~= seq![(0usize, (n - 1) as usize, 0usize)]);
        }
        let ghost stack = self.stack@;
        let (low, high, phase) = self.stack.pop().unwrap();
        assert(self.stack@ =~= stack.drop_last());
        if phase == 0 {
            self.status = self.status.note_work(low, high, 0, 0);
            if low < high {
                let mid = low + (high - low) / 2;
                self.stack.push((low, high, 1));
                self.stack.push((mid + 1, high, 0));
                self.stack.push((low, mid, 0));
            } else if self.stack.len() == 0 {
                self.status = self.status.note_finish();
            }
        } else {
            let mid = low + (high - low) / 2;
            let compared = self.merge(array, low, mid, high);
            self.status = self.status.note_work(low, high, compared, 1);
            if self.stack.len() == 0 {
                self.status = self.status.note_finish();
            }
        }
        self.status.finished
    }

    fn reset_state(&mut self) {
        self.status = Status::new();
        self.stack = Vec::new();
        self.temp = Vec::new();
    }

    fn is_finished(&self) -> (r: bool) {
        self.status.finished
    }

    fn comparisons(&self) -> (r: usize) {
        self.status.comparisons
    }

    fn swaps(&self) -> (r: usize) {
        self.status.swaps
    }
}

} // verus!
