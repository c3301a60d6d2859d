//! The contract shared by all sorting machines, and the vocabulary it is
//! stated in.

use vstd::multiset::Multiset;
use vstd::prelude::*;

pub mod any_sorter;
pub mod bogo_sort;
pub mod bubble_sort;
pub mod cocktail_sort;
pub mod comb_sort;
pub mod counting_sort;
pub mod gnome_sort;
pub mod heap_sort;
pub mod insertion_sort;
pub mod merge_sort;
pub mod odd_even_sort;
pub mod pancake_sort;
pub mod potential;
pub mod quick_sort;
pub mod runs;
pub mod selection_sort;
pub mod shell_sort;

verus! {

/// What the most recent step did: it only inspected elements, or it moved some.
#[derive(Clone, Copy, Debug, PartialEq, Eq, Structural)]
pub enum Reasons {
    Comparing,
    Switching,
}

/// The index that stands for "no position is highlighted".
pub const NO_INDEX: usize = usize::MAX;

/// What a machine shows to its observer: the highlighted pair, the kind of
/// the last step, the completion flag and the two counters.
///
/// The highlighted pair is the pair of positions that the step just taken
/// compared, exchanged or otherwise worked on, not the pair that the next
/// step will take up. A step that touched no value, such as the turn from
/// one pass to the next, highlights nothing, and so does a finished
/// machine. `comparisons` counts the comparisons between values of the
/// sequence and `swaps` the exchanges of two values; where an algorithm
/// counts otherwise, its step says so.
#[derive(Clone, Copy, Debug)]
pub struct Status {
    pub special: (usize, usize),
    pub reason: Reasons,
    pub finished: bool,
    pub comparisons: usize,
    pub swaps: usize,
}

/// A counter `n` higher, held at the largest value once it is reached.
pub open spec fn raise(c: usize, n: nat) -> usize {
    if c + n < usize::MAX {
        (c + n) as usize
    } else {
        usize::MAX
    }
}

impl Status {
    /// The status of a machine that has not run yet.
    pub open spec fn fresh() -> Status {
        Status {
            special: (NO_INDEX, NO_INDEX),
            reason: Reasons::Comparing,
            finished: false,
            comparisons: 0,
            swaps: 0,
        }
    }

    /// After a step of the kind `reason` on the positions `i` and `j` that
    /// made `compared` comparisons and `exchanged` exchanges.
    pub open spec fn record(
        self,
        i: int,
        j: int,
        reason: Reasons,
        compared: nat,
        exchanged: nat,
    ) -> Status {
        Status {
            special: (i as usize, j as usize),
            reason,
            finished: self.finished,
            comparisons: raise(self.comparisons, compared),
            swaps: raise(self.swaps, exchanged),
        }
    }

    /// After a step that touched no value: nothing is highlighted, and the
    /// step counts as comparing.
    pub open spec fn idle(self) -> Status {
        Status { special: (NO_INDEX, NO_INDEX), reason: Reasons::Comparing, ..self }
    }

    /// After a step that compared the positions `i` and `j` and exchanged
    /// them if `exchanged`: it counts as switching if it did.
    pub open spec fn after_visit(self, i: int, j: int, exchanged: bool) -> Status {
        if exchanged {
            self.record(i, j, Reasons::Switching, 1, 1)
        } else {
            self.record(i, j, Reasons::Comparing, 1, 0)
        }
    }

    /// After a step that worked on the positions from `i` to `j`, made
    /// `compared` comparisons and counts for `exchanged` exchanges: it
    /// counts as switching if it exchanged anything.
    pub open spec fn after_work(self, i: int, j: int, compared: nat, exchanged: nat) -> Status {
        if exchanged > 0 {
            self.record(i, j, Reasons::Switching, compared, exchanged)
        } else {
            self.record(i, j, Reasons::Comparing, compared, exchanged)
        }
    }

    /// After a step that moved a value between the positions `i` and `j`
    /// without comparing.
    pub open spec fn after_move(self, i: int, j: int) -> Status {
        self.record(i, j, Reasons::Switching, 0, 1)
    }

    /// The same status, marked complete and with no highlight.
    pub open spec fn finish(self) -> Status {
        Status { special: (NO_INDEX, NO_INDEX), finished: true, ..self }
    }

    /// The status of a machine that has not run yet.
    pub fn new() -> (r: Status)
        ensures
            r == Status::fresh(),
    {
        Status {
            special: (NO_INDEX, NO_INDEX),
            reason: Reasons::Comparing,
            finished: false,
            comparisons: 0,
            swaps: 0,
        }
    }

    /// The status after a step of the kind `reason` on the positions `i`
    /// and `j` that made `compared` comparisons and `exchanged` exchanges.
    pub fn note(self, i: usize, j: usize, reason: Reasons, compared: usize, exchanged: usize) -> (r:
        Status)
        ensures
            r == self.record(i as int, j as int, reason, compared as nat, exchanged as nat),
    {
        Status {
            special: (i, j),
            reason,
            finished: self.finished,
            comparisons: self.comparisons.saturating_add(compared),
            swaps: self.swaps.saturating_add(exchanged),
        }
    }

    /// The status after a step that touched no value.
    pub fn note_idle(self) -> (r: Status)
        ensures
            r == self.idle(),
    {
        Status { special: (NO_INDEX, NO_INDEX), reason: Reasons::Comparing, ..self }
    }

    /// The status after a step that compared the positions `i` and `j` and
    /// exchanged them if `exchanged`.
    pub fn note_visit(self, i: usize, j: usize, exchanged: bool) -> (r: Status)
        ensures
            r == self.after_visit(i as int, j as int, exchanged),
    {
        if exchanged {
            self.note(i, j, Reasons::Switching, 1, 1)
        } else {
            self.note(i, j, Reasons::Comparing, 1, 0)
        }
    }

    /// The status after a step that worked on the positions from `i` to
    /// `j`, made `compared` comparisons and counts for `exchanged`
    /// exchanges.
    pub fn note_work(self, i: usize, j: usize, compared: usize, exchanged: usize) -> (r: Status)
        ensures
            r == self.after_work(i as int, j as int, compared as nat, exchanged as nat),
    {
        if exchanged > 0 {
            self.note(i, j, Reasons::Switching, compared, exchanged)
        } else {
            self.note(i, j, Reasons::Comparing, compared, exchanged)
        }
    }

    /// The status after a step that moved a value between the positions
    /// `i` and `j` without comparing.
    pub fn note_move(self, i: usize, j: usize) -> (r: Status)
        ensures
            r == self.after_move(i as int, j as int),
    {
        self.note(i, j, Reasons::Switching, 0, 1)
    }

    /// The same status, marked complete and with no highlight.
    pub fn note_finish(self) -> (r: Status)
        ensures
            r == self.finish(),
    {
        Status { special: (NO_INDEX, NO_INDEX), finished: true, ..self }
    }
}

/// `s` is in non-decreasing order.
pub open spec fn sorted(s: Seq<usize>) -> bool {
    forall|i: int, j: int| 0 <= i <= j < s.len() ==> s[i] <= s[j]
}

/// `s` with the values at `i` and `j` exchanged.
pub open spec fn exchange(s: Seq<usize>, i: int, j: int) -> Seq<usize> {
    s.update(i, s[j]).update(j, s[i])
}

/// The positions from `lo` to `hi` of `s`, both included, are in
/// non-decreasing order.
pub open spec fn sorted_range(s: Seq<usize>, lo: int, hi: int) -> bool {
    forall|i: int, j: int| lo <= i <= j <= hi ==> s[i] <= s[j]
}

/// `x` as a natural number, or 0 where it is negative.
pub open spec fn at_least_zero(x: int) -> nat {
    if x >= 0 {
        x as nat
    } else {
        0
    }
}

/// A highlighted pair is either absent or points into a sequence of length `len`.
pub open spec fn highlight_valid(p: (usize, usize), len: nat) -> bool {
    (p.0 == NO_INDEX && p.1 == NO_INDEX) || (p.0 < len && p.1 < len)
}

/// Exchanging two positions keeps the length and the multiset of values.
pub proof fn lemma_exchange(s: Seq<usize>, i: int, j: int)
    requires
        0 <= i < s.len(),
        0 <= j < s.len(),
    ensures
        exchange(s, i, j).len() == s.len(),
        exchange(s, i, j).to_multiset() == s.to_multiset(),
{
    broadcast use vstd::seq_lib::group_to_multiset_ensures;
    let t = s.update(i, s[j]);
    assert(t.to_multiset() == s.to_multiset().insert(s[j]).remove(s[i]));
    assert(exchange(s, i, j).to_multiset() == t.to_multiset().insert(s[i]).remove(t[j]));
    assert(s.to_multiset().count(s[i]) > 0);
    assert(s.to_multiset().count(s[j]) > 0);
    assert(exchange(s, i, j).to_multiset() =~= s.to_multiset());
}

/// Every value of `s` is at most its right neighbour.
pub open spec fn neighbours_sorted(s: Seq<usize>) -> bool {
    forall|i: int, j: int| 0 <= i && j == i + 1 && j < s.len() ==> s[i] <= s[j]
}

/// A sequence whose neighbours are all in order is in non-decreasing order.
pub proof fn lemma_adjacent_sorted(s: Seq<usize>)
    requires
        neighbours_sorted(s),
    ensures
        sorted(s),
{
    assert forall|i: int, j: int| 0 <= i <= j < s.len() implies s[i] <= s[j] by {
        lemma_adjacent_chain(s, i, j);
    }
}

proof fn lemma_adjacent_chain(s: Seq<usize>, i: int, j: int)
    requires
        neighbours_sorted(s),
        0 <= i <= j < s.len(),
    ensures
        s[i] <= s[j],
    decreases j - i,
{
    if i < j {
        lemma_adjacent_chain(s, i, j - 1);
        assert(s[j - 1] <= s[j]);
    }
}

/// Exchanges the values at two positions of `array`.
pub fn swap(array: &mut Vec<usize>, i: usize, j: usize)
    requires
        i < old(array)@.len(),
        j < old(array)@.len(),
    ensures
        final(array)@ == exchange(old(array)@, i as int, j as int),
{
    let a = array[i];
    let b = array[j];
    array[i] = b;
    array[j] = a;
}

/// A sorting algorithm that advances by one unit of work per call.
///
/// The view of a machine is its configuration as a mathematical value. The
/// specification functions of this trait speak of configurations only, so
/// that what they say holds of a machine wherever it came from.
pub trait Sorter: View + Sized {
    /// The configuration in which the machine of configuration `m` began,
    /// and to which `reset_state` returns it.
    spec fn origin(m: Self::V) -> Self::V;

    /// What the configuration shows to an observer.
    spec fn status(m: Self::V) -> Status;

    /// The configurations that a run over the sequence `s` can be in.
    spec fn inv(m: Self::V, s: Seq<usize>) -> bool;

    /// The values that the run is sorting: those in the sequence, and those
    /// that the machine has taken out of it and still owes.
    spec fn content(m: Self::V, s: Seq<usize>) -> Multiset<usize>;

    /// The steps that the machine can take from configuration `m` over the
    /// sequence `s`: each leads to a configuration and a sequence.
    spec fn step_spec(m: Self::V, s: Seq<usize>, m2: Self::V, s2: Seq<usize>) -> bool;

    /// Whether the machine is one that can take only one step from a
    /// configuration and a sequence, and that comes to its end within the
    /// budget of steps that `budget` gives.
    spec fn deterministic(m: Self::V) -> bool;

    /// For a deterministic machine, a bound on the number of steps that it
    /// takes from the configuration `m` over the sequence `s` until it is
    /// complete.
    spec fn budget(m: Self::V, s: Seq<usize>) -> nat;

    /// A machine that has not run yet fits every sequence whose length is a
    /// `usize`, and owes nothing.
    proof fn lemma_initial(m: Self::V, s: Seq<usize>)
        requires
            m == Self::origin(m),
            s.len() <= usize::MAX,
        ensures
            Self::inv(m, s),
            Self::content(m, s) == s.to_multiset(),
    ;

    /// Where a machine began it had not run yet, and its status was fresh.
    proof fn lemma_origin(m: Self::V)
        ensures
            Self::origin(Self::origin(m)) == Self::origin(m),
            Self::status(Self::origin(m)) == Status::fresh(),
            Self::deterministic(Self::origin(m)) == Self::deterministic(m),
    ;

    /// In every configuration of a run the highlight is absent or points
    /// into the sequence; a finished run has left the sequence sorted and
    /// holding all its values; and a deterministic machine that is not
    /// finished has some budget left.
    proof fn lemma_inv(m: Self::V, s: Seq<usize>)
        requires
            Self::inv(m, s),
        ensures
            highlight_valid(Self::status(m).special, s.len()),
            Self::status(m).finished ==> sorted(s) && Self::content(m, s) == s.to_multiset(),
            Self::deterministic(m) && !Self::status(m).finished ==> Self::budget(m, s) > 0,
    ;

    /// A step keeps the run a run: the length and the values stay, the
    /// counters do not fall, and a finished machine stays as it is.
    proof fn lemma_step(m: Self::V, s: Seq<usize>, m2: Self::V, s2: Seq<usize>)
        requires
            Self::inv(m, s),
            Self::step_spec(m, s, m2, s2),
        ensures
            Self::inv(m2, s2),
            s2.len() == s.len(),
            Self::content(m2, s2) == Self::content(m, s),
            Self::status(m).comparisons <= Self::status(m2).comparisons,
            Self::status(m).swaps <= Self::status(m2).swaps,
            Self::status(m).finished ==> m2 == m && s2 == s,
            Self::origin(m2) == Self::origin(m),
    ;

    /// Every step of a deterministic machine that is not complete uses up
    /// some of its budget.
    proof fn lemma_progress(m: Self::V, s: Seq<usize>, m2: Self::V, s2: Seq<usize>)
        requires
            Self::inv(m, s),
            Self::step_spec(m, s, m2, s2),
            !Self::status(m).finished,
        ensures
            Self::deterministic(m) ==> Self::budget(m2, s2) < Self::budget(m, s),
    ;

    /// Where the machine is deterministic, a step is a function of the
    /// configuration and the sequence.
    proof fn lemma_deterministic(
        m: Self::V,
        s: Seq<usize>,
        m2: Self::V,
        s2: Seq<usize>,
        m3: Self::V,
        s3: Seq<usize>,
    )
        requires
            Self::step_spec(m, s, m2, s2),
            Self::step_spec(m, s, m3, s3),
        ensures
            Self::deterministic(m) ==> m2 == m3 && s2 == s3,
    ;

    /// A machine that has not run yet.
    fn new() -> (r: Self)
        ensures
            r@ == Self::origin(r@),
            Self::status(r@) == Status::fresh(),
            forall|s: Seq<usize>| s.len() <= usize::MAX ==> Self::inv(r@, s),
    ;

    /// The pair of positions that the most recent step touched, or
    /// `(NO_INDEX, NO_INDEX)` where there is none.
    fn special(&self) -> (r: (usize, usize))
        ensures
            r == Self::status(self@).special,
    ;

    /// What the most recent step did.
    fn reason(&self) -> (r: Reasons)
        ensures
            r == Self::status(self@).reason,
    ;

    /// Performs one unit of work on `array` and says whether the sort is
    /// complete.
    fn step(&mut self, array: &mut Vec<usize>) -> (done: bool)
        requires
            Self::inv(old(self)@, old(array)@),
        ensures
            Self::step_spec(old(self)@, old(array)@, final(self)@, final(array)@),
            Self::inv(final(self)@, final(array)@),
            done == Self::status(final(self)@).finished,
            final(array)@.len() == old(array)@.len(),
            Self::content(final(self)@, final(array)@) == Self::content(old(self)@, old(array)@),
            done ==> sorted(final(array)@) && final(array)@.to_multiset() == Self::content(
                old(self)@,
                old(array)@,
            ),
            Self::status(old(self)@).finished ==> done && final(self)@ == old(self)@,
            Self::status(old(self)@).finished ==> final(array)@ == old(array)@,
            Self::status(old(self)@).comparisons <= Self::status(final(self)@).comparisons,
            Self::status(old(self)@).swaps <= Self::status(final(self)@).swaps,
            highlight_valid(Self::status(final(self)@).special, final(array)@.len()),
            Self::deterministic(old(self)@) && !Self::status(old(self)@).finished ==> Self::budget(
                final(self)@,
                final(array)@,
            ) < Self::budget(old(self)@, old(array)@),
    ;

    /// Returns the machine to the configuration it had before its first step.
    fn reset_state(&mut self)
        ensures
            final(self)@ == Self::origin(old(self)@),
            Self::status(final(self)@) == Status::fresh(),
            forall|s: Seq<usize>| s.len() <= usize::MAX ==> Self::inv(final(self)@, s),
    ;

    /// Whether the sort is complete.
    fn is_finished(&self) -> (r: bool)
        ensures
            r == Self::status(self@).finished,
    ;

    /// The number of comparisons made since the machine was new or reset.
    fn comparisons(&self) -> (r: usize)
        ensures
            r == Self::status(self@).comparisons,
    ;

    /// The number of exchanges made since the machine was new or reset.
    fn swaps(&self) -> (r: usize)
        ensures
            r == Self::status(self@).swaps,
    ;
}

} // verus!
