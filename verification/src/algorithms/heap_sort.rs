//! Heap sort: build a max-heap over the sequence, then move its root behind
//! the heap again and again, one sift-down level per step.

use super::at_least_zero;
use super::potential::{
    disorder, lemma_disorder_bounds, lemma_disorder_exchange, lemma_exchange_lowers_disorder,
    lemma_exchange_raises_disorder, lemma_products,
};
use super::{exchange, highlight_valid, lemma_exchange, sorted, swap, Reasons, Sorter, Status};
use vstd::multiset::Multiset;
use vstd::prelude::*;

verus! {

/// The state of a heap sort between two steps. `usize::MAX` in `index` or
/// `root` stands for "none".
pub struct HeapSort {
    status: Status,
    index: usize,
    root: usize,
}

/// The configuration of a heap sort.
///
/// The heap takes the positions up to `index`; the values behind it are
/// settled. `root` is the position to sift down next: every position of the
/// heap behind it is at least as large as its children. Either is -1 where
/// there is none: `index` before the machine has seen its sequence, `root`
/// when the heap is complete.
pub struct HeapModel {
    pub status: Status,
    pub index: int,
    pub root: int,
}

impl View for HeapSort {
    type V = HeapModel;

    closed spec fn view(&self) -> HeapModel {
        HeapModel {
            status: self.status,
            index: if self.index == usize::MAX {
                -1
            } else {
                self.index as int
            },
            root: if self.root == usize::MAX {
                -1
            } else {
                self.root as int
            },
        }
    }
}

/// The configuration before the first step.
pub open spec fn heap_initial() -> HeapModel {
    HeapModel { status: Status::fresh(), index: -1, root: -1 }
}

/// The child of `r` with the larger value among the positions up to `end`,
/// the left one where they are equal. `r` has a left child there.
pub open spec fn larger_child(s: Seq<usize>, r: int, end: int) -> int {
    if 2 * r + 2 <= end && s[2 * r + 1] < s[2 * r + 2] {
        2 * r + 2
    } else {
        2 * r + 1
    }
}

/// One level of sifting down at `m.root` in the heap up to `end`: the
/// configuration and the sequence that it leaves, and whether the sifting
/// from this root is complete.
///
/// A position without a child in the heap is in order, and so is one that
/// is at least as large as its larger child: the sifting is complete, and
/// the root and the sequence stay. Otherwise the value is exchanged with
/// the larger child, which counts as one exchange, and sifting goes on at
/// that child. Finding the larger of two children counts as one comparison,
/// and so does holding the root against a child.
pub open spec fn heap_sift(m: HeapModel, s: Seq<usize>, end: int) -> (
    HeapModel,
    Seq<usize>,
    bool,
) {
    let r = m.root;
    if 2 * r + 1 > end {
        (HeapModel { status: m.status.idle(), ..m }, s, true)
    } else {
        let c = larger_child(s, r, end);
        let compared: nat = if 2 * r + 2 <= end {
            2
        } else {
            1
        };
        if s[r] < s[c] {
            (
                HeapModel { status: m.status.after_work(r, c, compared, 1), root: c, ..m },
                exchange(s, r, c),
                false,
            )
        } else {
            (HeapModel { status: m.status.after_work(r, c, compared, 0), ..m }, s, true)
        }
    }
}

/// One step of the sort.
///
/// A sequence of fewer than two values is complete at once. The first step
/// on a longer one takes the whole sequence as the heap and begins with
/// its last position that has a child. While there is a position to sift, a
/// step sifts one level, and takes up the position before it when the
/// sifting there is complete. With the heap complete, a step exchanges the root
/// with the last position of the heap, takes that position out of the heap
/// and begins to sift at the root; when the heap has come down to one
/// position, the sort is complete.
pub open spec fn heap_next(m: HeapModel, s: Seq<usize>) -> (HeapModel, Seq<usize>) {
    if m.status.finished {
        (m, s)
    } else if s.len() <= 1 {
        (HeapModel { status: m.status.idle().finish(), ..m }, s)
    } else {
        let m1 = if m.index < 0 {
            HeapModel { index: s.len() - 1, root: s.len() as int / 2 - 1, ..m }
        } else {
            m
        };
        if m1.root >= 0 {
            let (m2, s2, complete) = heap_sift(m1, s, m1.index);
            if complete {
                (HeapModel { root: m2.root - 1, ..m2 }, s2)
            } else {
                (m2, s2)
            }
        } else if m1.index == 0 {
            (HeapModel { status: m1.status.idle().finish(), ..m1 }, s)
        } else {
            (
                HeapModel {
                    status: m1.status.after_move(0, m1.index),
                    index: m1.index - 1,
                    root: 0,
                },
                exchange(s, 0, m1.index),
            )
        }
    }
}

/// The value at `k` is at least the values of its children among the
/// positions up to `end`.
pub open spec fn heap_ok(s: Seq<usize>, k: int, end: int) -> bool {
    &&& 2 * k + 1 <= end ==> s[2 * k + 1] <= s[k]
    &&& 2 * k + 2 <= end ==> s[2 * k + 2] <= s[k]
}

/// The configurations that a run over `s` can be in.
pub open spec fn heap_inv(m: HeapModel, s: Seq<usize>) -> bool {
    &&& s.len() <= usize::MAX
    &&& highlight_valid(m.status.special, s.len())
    &&& m.status.finished ==> sorted(s)
    &&& -1 <= m.index
    &&& -1 <= m.root
    &&& !m.status.finished && m.index >= 0 ==> {
        &&& s.len() >= 2
        &&& m.index < s.len()
        &&& m.root <= m.index
        &&& forall|i: int, j: int| 0 <= i < j < s.len() && m.index < j ==> s[i] <= s[j]
        &&& forall|k: int| m.root < k <= m.index ==> #[trigger] heap_ok(s, k, m.index)
    }
}

/// In a complete heap no value is larger than the one at the root.
pub proof fn lemma_heap_root_is_max(s: Seq<usize>, end: int, k: int)
    requires
        0 <= k <= end < s.len(),
        forall|p: int| 0 <= p <= end ==> #[trigger] heap_ok(s, p, end),
    ensures
        s[k] <= s[0],
    decreases k,
{
    if k > 0 {
        let p = (k - 1) / 2;
        assert(heap_ok(s, p, end));
        lemma_heap_root_is_max(s, end, p);
    }
}

/// A step of the model keeps the invariant, the length and the values.
pub proof fn lemma_heap_next(m: HeapModel, s: Seq<usize>)
    requires
        heap_inv(m, s),
    ensures
        heap_inv(heap_next(m, s).0, heap_next(m, s).1),
        heap_next(m, s).1.len() == s.len(),
        heap_next(m, s).1.to_multiset() == s.to_multiset(),
        m.status.comparisons <= heap_next(m, s).0.status.comparisons,
        m.status.swaps <= heap_next(m, s).0.status.swaps,
{
    if !m.status.finished && s.len() >= 2 {
        let m1 = if m.index < 0 {
            HeapModel { index: s.len() - 1, root: s.len() as int / 2 - 1, ..m }
        } else {
            m
        };
        let (m2, s2) = heap_next(m, s);
        let end = m1.index;
        if m1.root >= 0 {
            let r = m1.root;
            if 2 * r + 1 > end {
                assert(heap_ok(s, r, end));
            } else {
                let c = larger_child(s, r, end);
                if s[r] < s[c] {
                    lemma_exchange(s, r, c);
                    assert forall|k: int| c < k <= end implies #[trigger] heap_ok(s2, k, end) by {
                        assert(heap_ok(s, k, end));
                    }
                } else {
                    assert(heap_ok(s, r, end));
                }
            }
        } else if end > 0 {
            lemma_exchange(s, 0, end);
            assert forall|k: int| 0 <= k <= end implies #[trigger] s[k] <= s[0] by {
                lemma_heap_root_is_max(s, end, k);
            }
            assert forall|k: int| 0 < k <= end - 1 implies #[trigger] heap_ok(s2, k, end - 1) by {
                assert(heap_ok(s, k, end));
            }
        }
    }
}

/// More than the disorder of any sequence of `n` values.
pub open spec fn heap_room(n: int) -> int {
    n * n * usize::MAX
}

/// More than the steps that it takes to sift until the heap of a
/// sequence of `n` values is complete.
pub open spec fn heap_round(n: int) -> int {
    heap_room(n) * (n + 2) + n + 4
}

/// A bound on the steps that are left.
pub open spec fn heap_budget(m: HeapModel, s: Seq<usize>) -> nat {
    if m.status.finished {
        0
    } else {
        let index = if m.index < 0 {
            s.len() - 1
        } else {
            m.index
        };
        let root = if m.index < 0 {
            s.len() as int / 2 - 1
        } else {
            m.root
        };
        1 + at_least_zero(
            index * heap_round(s.len() as int) + (heap_room(s.len() as int) - disorder(s)) * (
            s.len() + 2) + root + 2,
        )
    }
}

/// Every step from a configuration that is not complete lowers the bound.
pub proof fn lemma_heap_progress(m: HeapModel, s: Seq<usize>)
    requires
        heap_inv(m, s),
        !m.status.finished,
    ensures
        heap_budget(heap_next(m, s).0, heap_next(m, s).1) < heap_budget(m, s),
{
    let n = s.len() as int;
    let w = heap_room(n);
    let q = heap_round(n);
    lemma_disorder_bounds(s);
    lemma_products(0, w, n + 2);
    lemma_products(0, w - disorder(s), n + 2);
    lemma_products(w - disorder(s), w, n + 2);
    if s.len() >= 2 {
        let m1 = if m.index < 0 {
            HeapModel { index: s.len() - 1, root: s.len() as int / 2 - 1, ..m }
        } else {
            m
        };
        let (m2, s2) = heap_next(m, s);
        lemma_disorder_bounds(s2);
        lemma_products(0, m1.index, q);
        if m1.root >= 0 {
            let r = m1.root;
            if 2 * r + 1 <= m1.index {
                let c = larger_child(s, r, m1.index);
                if s[r] < s[c] {
                    lemma_exchange_raises_disorder(s, r, c);
                    lemma_products(w - disorder(s2), w - disorder(s), n + 2);
                }
            }
        } else if m1.index > 0 {
            lemma_exchange(s, 0, m1.index);
            lemma_products(m1.index - 1, m1.index, q);
            lemma_products(0, w - disorder(s2), n + 2);
            lemma_products(w - disorder(s2), w, n + 2);
        }
    }
}

impl HeapSort {
    /// Sifts the value at `self.root` down one level in the heap that ends
    /// at `end_index`, and says whether the sifting from this root is
    /// complete. Where it is, the root stays where it is.
    fn sift_down(&mut self, array: &mut Vec<usize>, end_index: usize) -> (complete: bool)
        requires
            old(self).root < old(array)@.len(),
            end_index < old(array)@.len(),
        ensures
            (final(self)@, final(array)@, complete) == heap_sift(
                old(self)@,
                old(array)@,
                end_index as int,
            ),
    {
        proof {
            vstd::std_specs::vec::axiom_spec_len(array);
        }
        let root = self.root;
        if end_index == 0 || root > (end_index - 1) / 2 {
            self.status = self.status.note_idle();
            return true;
        }
        let mut child = root * 2 + 1;
        let mut compared: usize = 1;
        if child < end_index {
            compared = 2;
            if array[child] < array[child + 1] {
                child = child + 1;
            }
        }
        if array[root] < array[child] {
            swap(array, root, child);
            self.status = self.status.note_work(root, child, compared, 1);
            self.root = child;
            return false;
        }
        self.status = self.status.note_work(root, child, compared, 0);
        true
    }
}

impl Sorter for HeapSort {
    open spec fn origin(m: HeapModel) -> HeapModel {
        heap_initial()
    }

    open spec fn status(m: HeapModel) -> Status {
        m.status
    }

    open spec fn inv(m: HeapModel, s: Seq<usize>) -> bool {
        heap_inv(m, s)
    }

    open spec fn content(m: HeapModel, s: Seq<usize>) -> Multiset<usize> {
        s.to_multiset()
    }

    open spec fn step_spec(m: HeapModel, s: Seq<usize>, m2: HeapModel, s2: Seq<usize>) -> bool {
        (m2, s2) == heap_next(m, s)
    }

    open spec fn deterministic(m: HeapModel) -> bool {
        true
    }

    open spec fn budget(m: HeapModel, s: Seq<usize>) -> nat {
        heap_budget(m, s)
    }

    proof fn lemma_initial(m: HeapModel, s: Seq<usize>) {
    }

    proof fn lemma_origin(m: HeapModel) {
    }

    proof fn lemma_inv(m: HeapModel, s: Seq<usize>) {
    }

    proof fn lemma_step(m: HeapModel, s: Seq<usize>, m2: HeapModel, s2: Seq<usize>) {
        lemma_heap_next(m, s);
    }

    proof fn lemma_progress(m: HeapModel, s: Seq<usize>, m2: HeapModel, s2: Seq<usize>) {
        lemma_heap_progress(m, s);
    }

    proof fn lemma_deterministic(
        m: HeapModel,
        s: Seq<usize>,
        m2: HeapModel,
        s2: Seq<usize>,
        m3: HeapModel,
        s3: Seq<usize>,
    ) {
    }

    fn new() -> (r: Self) {
        HeapSort { status: Status::new(), index: usize::MAX, root: usize::MAX }
    }

    fn special(&self) -> (r: (usize, usize)) {
        self.status.special
    }

    fn reason(&self) -> (r: Reasons) {
        self.status.reason
    }

    fn step(&mut self, array: &mut Vec<usize>) -> (done: bool) {
        proof {
            if !self.status.finished {
                lemma_heap_progress(self@, array@);
            }
            lemma_heap_next(self@, array@);
        }
        if self.status.finished {
            return true;
        }
        if array.len() <= 1 {
            self.status = self.status.note_idle().note_finish();
            return true;
        }
        if self.index == usize::MAX {
            self.index = array.len() - 1;
            self.root = array.len() / 2 - 1;
        }
        if self.root != usize::MAX {
            let end_index = self.index;
            if self.sift_down(array, end_index) {
                if self.root == 0 {
                    self.root = usize::MAX;
                } else {
                    self.root = self.root - 1;
                }
            }
        } else if self.index == 0 {
            self.status = self.status.note_idle().note_finish();
        } else {
            swap(array, 0, self.index);
            self.status = self.status.note_move(0, self.index);
            self.index = self.index - 1;
            self.root = 0;
        }
        self.status.finished
    }

    fn reset_state(&mut self) {
        self.status = Status::new();
        self.index = usize::MAX;
        self.root = usize::MAX;
    }

    fn is_finished(&self) -> (r: bool) {
        self.status.finished
    }

    fn comparisons(&self) -> (r: usize) {
        self.status.comparisons
    }

    fn swaps(&self) -> (r: usize) {
        self.status.swaps
    }
}

} // verus!
