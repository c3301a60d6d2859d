//! Bogo sort: shuffle the sequence until it happens to be in order.

use super::{highlight_valid, sorted, sorted_range, Reasons, Sorter, Status, NO_INDEX};
use rand::rngs::StdRng;
use rand::seq::SliceRandom;
use rand::SeedableRng;
use vstd::multiset::Multiset;
use vstd::prelude::*;

verus! {

/// The state of a bogo sort between two steps.
pub struct BogoSort {
    status: Status,
    seed: u64,
    round: u64,
}

/// The configuration of a bogo sort: its status, the seed that it was made
/// with, and the number of shuffles that it has made since it was new or
/// reset, counted round the range of `u64`.
pub struct BogoModel {
    pub status: Status,
    pub seed: u64,
    pub round: u64,
}

impl View for BogoSort {
    type V = BogoModel;

    closed spec fn view(&self) -> BogoModel {
        BogoModel { status: self.status, seed: self.seed, round: self.round }
    }
}

/// The configuration before the first step of a machine made with `seed`.
pub open spec fn bogo_initial(seed: u64) -> BogoModel {
    BogoModel { status: Status::fresh(), seed, round: 0 }
}

/// The sum of `x` and `y`, counted round the range of `u64`.
pub open spec fn wrapped_sum(x: u64, y: u64) -> u64 {
    if x + y > u64::MAX {
        (x + y - 0x1_0000_0000_0000_0000) as u64
    } else {
        (x + y) as u64
    }
}

/// The order in which `SliceRandom::shuffle` of rand leaves the sequence
/// `s` when it draws from a `StdRng` that `SeedableRng::seed_from_u64` has
/// just made from `seed`.
pub uninterp spec fn shuffled(seed: u64, s: Seq<usize>) -> Seq<usize>;

/// The steps that a bogo sort can take.
///
/// A sequence of fewer than two values is complete at once. Otherwise a
/// step checks whether the sequence is in order, which counts as one
/// comparison. If it is, the sort is complete. If it is not, the step
/// shuffles the sequence, which counts as one exchange: the shuffle number
/// `round` of a machine made with `seed` draws from a generator made from
/// the sum of the two, and leaves the same values in the order that this
/// generator gives. No position is highlighted.
pub open spec fn bogo_step(m: BogoModel, s: Seq<usize>, m2: BogoModel, s2: Seq<usize>) -> bool {
    if m.status.finished {
        m2 == m && s2 == s
    } else if s.len() <= 1 {
        m2 == (BogoModel { status: m.status.idle().finish(), ..m }) && s2 == s
    } else if sorted(s) {
        &&& m2 == (BogoModel {
            status: m.status.record(
                NO_INDEX as int,
                NO_INDEX as int,
                Reasons::Comparing,
                1,
                0,
            ).finish(),
            ..m
        })
        &&& s2 == s
    } else {
        &&& m2 == (BogoModel {
            status: m.status.record(NO_INDEX as int, NO_INDEX as int, Reasons::Switching, 1, 1),
            round: wrapped_sum(m.round, 1),
            ..m
        })
        &&& s2 == shuffled(wrapped_sum(m.seed, m.round), s)
        &&& s2.len() == s.len()
        &&& s2.to_multiset() == s.to_multiset()
    }
}

/// The configurations that a run over `s` can be in.
pub open spec fn bogo_inv(m: BogoModel, s: Seq<usize>) -> bool {
    &&& s.len() <= usize::MAX
    &&& highlight_valid(m.status.special, s.len())
    &&& m.status.finished ==> sorted(s)
}

/// `SeedableRng::seed_from_u64` of rand makes a `StdRng` from `seed`, and
/// `SliceRandom::shuffle` of rand shuffles the whole of `array` with it.
/// The shuffle exchanges values of the slice with each other, so that the
/// length and the values stay. The order that comes out is fixed by the
/// seed and the slice: the generator and the shuffle are deterministic in
/// the version of rand that this crate is built with, and draw from nothing
/// but the seed.
#[verifier::external_body]
fn shuffle(array: &mut Vec<usize>, seed: u64)
    ensures
        final(array)@ == shuffled(seed, old(array)@),
        final(array)@.len() == old(array)@.len(),
        final(array)@.to_multiset() == old(array)@.to_multiset(),
{
    let mut rng = StdRng::seed_from_u64(seed);
    array.shuffle(&mut rng);
}

/// A step of a bogo sort is fixed by the configuration and the sequence:
/// two machines made with one seed take the same steps over one sequence.
pub proof fn lemma_bogo_step_fixed(
    m: BogoModel,
    s: Seq<usize>,
    m2: BogoModel,
    s2: Seq<usize>,
    m3: BogoModel,
    s3: Seq<usize>,
)
    requires
        bogo_step(m, s, m2, s2),
        bogo_step(m, s, m3, s3),
    ensures
        m2 == m3,
        s2 == s3,
{
}

impl BogoSort {
    /// A machine that has not run yet and whose shuffles are fixed by
    /// `seed`.
    pub fn with_seed(seed: u64) -> (r: Self)
        ensures
            r@ == bogo_initial(seed),
    {
        BogoSort { status: Status::new(), seed, round: 0 }
    }

    /// Whether `array` is in non-decreasing order.
    pub fn is_sorted_check(&self, array: &[usize]) -> (r: bool)
        ensures
            r == sorted(array@),
    {
        let n = array.len();
        if n <= 1 {
            return true;
        }
        let mut i: usize = 0;
        while i < n - 1
            invariant
                n == array@.len(),
                n >= 2,
                i <= n - 1,
                sorted_range(array@, 0, i as int),
            decreases n - 1 - i,
        {
            if array[i] > array[i + 1] {
                return false;
            }
            i = i + 1;
        }
        true
    }
}

impl Sorter for BogoSort {
    open spec fn origin(m: BogoModel) -> BogoModel {
        bogo_initial(m.seed)
    }

    open spec fn status(m: BogoModel) -> Status {
        m.status
    }

    open spec fn inv(m: BogoModel, s: Seq<usize>) -> bool {
        bogo_inv(m, s)
    }

    open spec fn content(m: BogoModel, s: Seq<usize>) -> Multiset<usize> {
        s.to_multiset()
    }

    open spec fn step_spec(m: BogoModel, s: Seq<usize>, m2: BogoModel, s2: Seq<usize>) -> bool {
        bogo_step(m, s, m2, s2)
    }

    /// A bogo sort does not count as deterministic: its seed fixes its
    /// steps, but nothing bounds their number.
    open spec fn deterministic(m: BogoModel) -> bool {
        false
    }

    open spec fn budget(m: BogoModel, s: Seq<usize>) -> nat {
        0
    }

    proof fn lemma_initial(m: BogoModel, s: Seq<usize>) {
    }

    proof fn lemma_origin(m: BogoModel) {
    }

    proof fn lemma_inv(m: BogoModel, s: Seq<usize>) {
    }

    proof fn lemma_step(m: BogoModel, s: Seq<usize>, m2: BogoModel, s2: Seq<usize>) {
    }

    proof fn lemma_progress(m: BogoModel, s: Seq<usize>, m2: BogoModel, s2: Seq<usize>) {
    }

    proof fn lemma_deterministic(
        m: BogoModel,
        s: Seq<usize>,
        m2: BogoModel,
        s2: Seq<usize>,
        m3: BogoModel,
        s3: Seq<usize>,
    ) {
    }

    /// A machine that has not run yet, with the seed 0.
    fn new() -> (r: Self)
        ensures
            r@ == bogo_initial(0),
    {
        BogoSort::with_seed(0)
    }

    fn special(&self) -> (r: (usize, usize)) {
        self.status.special
    }

    fn reason(&self) -> (r: Reasons) {
        self.status.reason
    }

    fn step(&mut self, array: &mut Vec<usize>) -> (done: bool) {
        if self.status.finished {
            return true;
        }
        if array.len() <= 1 {
            self.status = self.status.note_idle().note_finish();
            return true;
        }
        if self.is_sorted_check(array.as_slice()) {
            self.status = self.status.note(
                NO_INDEX,
                NO_INDEX,
                Reasons::Comparing,
                1,
                0,
            ).note_finish();
        } else {
            shuffle(array, self.seed.wrapping_add(self.round));
            self.status = self.status.note(NO_INDEX, NO_INDEX, Reasons::Switching, 1, 1);
            self.round = self.round.wrapping_add(1);
        }
        self.status.finished
    }

    fn reset_state(&mut self) {
        self.status = Status::new();
        self.round = 0;
    }

    fn is_finished(&self) -> (r: bool) {
        self.status.finished
    }

    fn comparisons(&self) -> (r: usize) {
        self.status.comparisons
    }

    fn swaps(&self) -> (r: usize) {
        self.status.swaps
    }
}

} // verus!
