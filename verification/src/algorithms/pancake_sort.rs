//! Pancake sort: each step brings the largest value of the unsorted front
//! part to the end of that part with at most two reversals of a prefix.

use super::at_least_zero;
use super::{highlight_valid, sorted, swap, Reasons, Sorter, Status};
use vstd::multiset::Multiset;
use vstd::prelude::*;

verus! {

/// The state of a pancake sort between two steps.
pub struct PancakeSort {
    status: Status,
    curr_size: usize,
}

/// The configuration of a pancake sort: the first `curr_size` positions are
/// unsorted, the others settled; 0 before the machine has seen its sequence.
pub struct PancakeModel {
    pub status: Status,
    pub curr_size: int,
}

impl View for PancakeSort {
    type V = PancakeModel;

    closed spec fn view(&self) -> PancakeModel {
        PancakeModel { status: self.status, curr_size: self.curr_size as int }
    }
}

/// The configuration before the first step.
pub open spec fn pancake_initial() -> PancakeModel {
    PancakeModel { status: Status::fresh(), curr_size: 0 }
}

/// The position of the last of the largest values among the first `n` of
/// `s`, or 0 where `n` is 0.
pub open spec fn last_max(s: Seq<usize>, n: int) -> int
    decreases n,
{
    if n <= 1 {
        0
    } else if s[n - 1] >= s[last_max(s, n - 1)] {
        n - 1
    } else {
        last_max(s, n - 1)
    }
}

/// `s` with the positions up to `k`, `k` included, in reverse order.
pub open spec fn flipped(s: Seq<usize>, k: int) -> Seq<usize> {
    s.subrange(0, k + 1).reverse() + s.subrange(k + 1, s.len() as int)
}

/// One step of the sort.
///
/// A sequence of fewer than two values is complete at once, and so is the
/// sort when the unsorted part has come down to one value. Otherwise a
/// step finds the last of the largest values of the unsorted part, with
/// one comparison for each value after its first. Unless that value ends
/// the part already, the step reverses the prefix that ends with it, if it
/// is not at the front, and then the whole unsorted part; each reversal
/// counts as one exchange. The part then ends one position earlier.
pub open spec fn pancake_next(m: PancakeModel, s: Seq<usize>) -> (PancakeModel, Seq<usize>) {
    if m.status.finished {
        (m, s)
    } else if s.len() <= 1 {
        (PancakeModel { status: m.status.idle().finish(), ..m }, s)
    } else {
        let n = if m.curr_size == 0 {
            s.len() as int
        } else {
            m.curr_size
        };
        if n <= 1 {
            (PancakeModel { status: m.status.idle().finish(), curr_size: n }, s)
        } else {
            let k = last_max(s, n);
            let s1 = if k != n - 1 && k > 0 {
                flipped(s, k)
            } else {
                s
            };
            let s2 = if k != n - 1 {
                flipped(s1, n - 1)
            } else {
                s1
            };
            let flips: nat = if k == n - 1 {
                0
            } else if k > 0 {
                2
            } else {
                1
            };
            (
                PancakeModel {
                    status: m.status.after_work(k, n - 1, (n - 1) as nat, flips),
                    curr_size: n - 1,
                },
                s2,
            )
        }
    }
}

/// The configurations that a run over `s` can be in.
pub open spec fn pancake_inv(m: PancakeModel, s: Seq<usize>) -> bool {
    &&& s.len() <= usize::MAX
    &&& highlight_valid(m.status.special, s.len())
    &&& m.status.finished ==> sorted(s)
    &&& 0 <= m.curr_size
    &&& !m.status.finished && s.len() >= 2 && m.curr_size != 0 ==> {
        &&& m.curr_size <= s.len()
        &&& forall|i: int, j: int| 0 <= i < j < s.len() && m.curr_size <= j ==> s[i] <= s[j]
    }
}

/// The last largest value lies among the first `n` and is at least each of
/// them.
pub proof fn lemma_last_max(s: Seq<usize>, n: int)
    requires
        0 < n <= s.len(),
    ensures
        0 <= last_max(s, n) < n,
        forall|i: int| 0 <= i < n ==> #[trigger] s[i] <= s[last_max(s, n)],
    decreases n,
{
    if n > 1 {
        lemma_last_max(s, n - 1);
    }
}

/// A reversal of a prefix keeps the length and the values, mirrors the
/// prefix and leaves the rest alone.
pub proof fn lemma_flipped(s: Seq<usize>, k: int)
    requires
        0 <= k < s.len(),
    ensures
        flipped(s, k).len() == s.len(),
        flipped(s, k).to_multiset() == s.to_multiset(),
        forall|i: int| 0 <= i <= k ==> #[trigger] flipped(s, k)[i] == s[k - i],
        forall|i: int| k < i < s.len() ==> #[trigger] flipped(s, k)[i] == s[i],
{
    broadcast use vstd::multiset::group_multiset_axioms;

    let front = s.subrange(0, k + 1);
    let back = s.subrange(k + 1, s.len() as int);
    front.lemma_reverse_to_multiset();
    vstd::seq_lib::lemma_multiset_commutative(front.reverse(), back);
    vstd::seq_lib::lemma_multiset_commutative(front, back);
    assert(s =~= front + back);
    assert(flipped(s, k).to_multiset() =~= s.to_multiset());
}

/// A step of the model keeps the invariant, the length and the values.
pub proof fn lemma_pancake_next(m: PancakeModel, s: Seq<usize>)
    requires
        pancake_inv(m, s),
    ensures
        pancake_inv(pancake_next(m, s).0, pancake_next(m, s).1),
        pancake_next(m, s).1.len() == s.len(),
        pancake_next(m, s).1.to_multiset() == s.to_multiset(),
        m.status.comparisons <= pancake_next(m, s).0.status.comparisons,
        m.status.swaps <= pancake_next(m, s).0.status.swaps,
{
    if !m.status.finished && s.len() >= 2 {
        let n = if m.curr_size == 0 {
            s.len() as int
        } else {
            m.curr_size
        };
        if n > 1 {
            let k = last_max(s, n);
            lemma_last_max(s, n);
            let s1 = if k != n - 1 && k > 0 {
                flipped(s, k)
            } else {
                s
            };
            let s2 = pancake_next(m, s).1;
            if k != n - 1 {
                if k > 0 {
                    lemma_flipped(s, k);
                }
                lemma_flipped(s1, n - 1);
                assert forall|i: int, j: int| 0 <= i < j < s.len() && n - 1 <= j implies s2[i]
                    <= s2[j] by {
                    if j >= n {
                        assert(s2[j] == s[j]);
                        if i < n {
                            assert(s2[i] == s1[n - 1 - i]);
                            if k > 0 && n - 1 - i <= k {
                                assert(s1[n - 1 - i] == s[k - (n - 1 - i)]);
                            }
                        }
                    } else {
                        assert(s2[j] == s1[0]);
                        assert(s1[0] == s[k]);
                        assert(s2[i] == s1[n - 1 - i]);
                        if k > 0 && n - 1 - i <= k {
                            assert(s1[n - 1 - i] == s[k - (n - 1 - i)]);
                        }
                    }
                }
            }
        }
    }
}

/// A bound on the steps that are left.
pub open spec fn pancake_budget(m: PancakeModel, s: Seq<usize>) -> nat {
    if m.status.finished {
        0
    } else {
        1 + at_least_zero(
            if m.curr_size == 0 {
                s.len() as int
            } else {
                m.curr_size
            },
        )
    }
}

/// Every step from a configuration that is not complete lowers the bound.
pub proof fn lemma_pancake_progress(m: PancakeModel, s: Seq<usize>)
    requires
        pancake_inv(m, s),
        !m.status.finished,
    ensures
        pancake_budget(pancake_next(m, s).0, pancake_next(m, s).1) < pancake_budget(m, s),
{
    if s.len() >= 2 {
        let n = if m.curr_size == 0 {
            s.len() as int
        } else {
            m.curr_size
        };
        if n > 1 {
            let k = last_max(s, n);
            lemma_last_max(s, n);
            if k != n - 1 {
                if k > 0 {
                    lemma_flipped(s, k);
                    lemma_flipped(flipped(s, k), n - 1);
                } else {
                    lemma_flipped(s, n - 1);
                }
            }
        }
    }
}

impl PancakeSort {
    /// A machine that has not run yet.
    pub fn new() -> (r: Self)
        ensures
            r@ == pancake_initial(),
    {
        PancakeSort { status: Status::new(), curr_size: 0 }
    }

    /// Reverses the positions of `arr` up to `k`, `k` included.
    pub fn flip(arr: &mut Vec<usize>, k: usize)
        requires
            k < old(arr)@.len(),
        ensures
            final(arr)@ == flipped(old(arr)@, k as int),
    {
        let mut i: usize = 0;
        let mut j: usize = k;
        while i < j
            invariant
                i + j == k,
                k < arr@.len(),
                arr@.len() == old(arr)@.len(),
                forall|x: int| 0 <= x < i || j < x <= k ==> #[trigger] arr@[x] == old(arr)@[k - x],
                forall|x: int| i <= x <= j || k < x < arr@.len() ==> #[trigger] arr@[x] == old(
                    arr,
                )@[x],
            decreases j,
        {
            swap(arr, i, j);
            i = i + 1;
            j = j - 1;
        }
        assert(arr@ =~= flipped(old(arr)@, k as int));
    }

    /// The position of the last of the largest values among the first `n`
    /// of `arr`, or 0 where `n` is 0.
    pub fn find_max(arr: &Vec<usize>, n: usize) -> (k: usize)
        requires
            n <= arr@.len(),
        ensures
            k == last_max(arr@, n as int),
    {
        let mut k: usize = 0;
        let mut i: usize = 1;
        while i < n
            invariant
                1 <= i,
                n <= arr@.len(),
                i <= n || n <= 1,
                k < i,
                k == last_max(arr@, if i <= n {
                    i as int
                } else {
                    n as int
                }),
            decreases n - i,
        {
            if arr[i] >= arr[k] {
                k = i;
            }
            i = i + 1;
        }
        k
    }
}

impl Sorter for PancakeSort {
    open spec fn origin(m: PancakeModel) -> PancakeModel {
        pancake_initial()
    }

    open spec fn status(m: PancakeModel) -> Status {
        m.status
    }

    open spec fn inv(m: PancakeModel, s: Seq<usize>) -> bool {
        pancake_inv(m, s)
    }

    open spec fn content(m: PancakeModel, s: Seq<usize>) -> Multiset<usize> {
        s.to_multiset()
    }

    open spec fn step_spec(m: PancakeModel, s: Seq<usize>, m2: PancakeModel, s2: Seq<usize>) -> bool {
        (m2, s2) == pancake_next(m, s)
    }

    open spec fn deterministic(m: PancakeModel) -> bool {
        true
    }

    open spec fn budget(m: PancakeModel, s: Seq<usize>) -> nat {
        pancake_budget(m, s)
    }

    proof fn lemma_initial(m: PancakeModel, s: Seq<usize>) {
    }

    proof fn lemma_origin(m: PancakeModel) {
    }

    proof fn lemma_inv(m: PancakeModel, s: Seq<usize>) {
    }

    proof fn lemma_step(m: PancakeModel, s: Seq<usize>, m2: PancakeModel, s2: Seq<usize>) {
        lemma_pancake_next(m, s);
    }

    proof fn lemma_progress(m: PancakeModel, s: Seq<usize>, m2: PancakeModel, s2: Seq<usize>) {
        lemma_pancake_progress(m, s);
    }

    proof fn lemma_deterministic(
        m: PancakeModel,
        s: Seq<usize>,
        m2: PancakeModel,
        s2: Seq<usize>,
        m3: PancakeModel,
        s3: Seq<usize>,
    ) {
    }

    fn new() -> (r: Self) {
        PancakeSort::new()
    }

    fn special(&self) -> (r: (usize, usize)) {
        self.status.special
    }

    fn reason(&self) -> (r: Reasons) {
        self.status.reason
    }

    fn step(&mut self, array: &mut Vec<usize>) -> (done: bool) {
        proof {
            if !self.status.finished {
                lemma_pancake_progress(self@, array@);
            }
            lemma_pancake_next(self@, array@);
        }
        if self.status.finished {
            return true;
        }
        if array.len() <= 1 {
            self.status = self.status.note_idle().note_finish();
            return true;
        }
        if self.curr_size == 0 {
            self.curr_size = array.len();
        }
        if self.curr_size <= 1 {
            self.status = self.status.note_idle().note_finish();
        } else {
            let n = self.curr_size;
            let max_index = PancakeSort::find_max(array, n);
            proof {
                lemma_last_max(array@, n as int);
            }
            let mut flips: usize = 0;
            if max_index != n - 1 {
                if max_index > 0 {
                    PancakeSort::flip(array, max_index);
                    flips = flips + 1;
                    proof {
                        lemma_flipped(old(array)@, max_index as int);
                    }
                }
                PancakeSort::flip(array, n - 1);
                flips = flips + 1;
            }
            self.status = self.status.note_work(max_index, n - 1, n - 1, flips);
            self.curr_size = n - 1;
        }
        self.status.finished
    }

    fn reset_state(&mut self) {
        *self = PancakeSort::new();
    }

    fn is_finished(&self) -> (r: bool) {
        self.status.finished
    }

    fn comparisons(&self) -> (r: usize) {
        self.status.comparisons
    }

    fn swaps(&self) -> (r: usize) {
        self.status.swaps
    }
}

} // verus!
