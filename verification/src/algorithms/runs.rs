//! Runs of sorting machines: what holds of every run of every machine, and
//! a driver that takes a machine through a run to its end.

use super::potential::inversions;
use super::{highlight_valid, raise, sorted, Sorter, Status};
use vstd::prelude::*;

verus! {

/// A run of a machine: the configurations `ms` and the sequences `ss` that
/// it passes through, the first pair fit for each other and each later pair
/// reached from the one before it by one step.
pub open spec fn is_run<S: Sorter>(ms: Seq<S::V>, ss: Seq<Seq<usize>>) -> bool {
    &&& ms.len() == ss.len()
    &&& ms.len() > 0
    &&& S::inv(ms[0], ss[0])
    &&& forall|k: int|
        0 <= k < ms.len() - 1 ==> S::step_spec(#[trigger] ms[k], ss[k], ms[k + 1], ss[k + 1])
}

/// Every point of a run satisfies the invariant, and has the length and the
/// content of the run's first point.
pub proof fn lemma_run_point<S: Sorter>(ms: Seq<S::V>, ss: Seq<Seq<usize>>, k: int)
    requires
        is_run::<S>(ms, ss),
        0 <= k < ms.len(),
    ensures
        S::inv(ms[k], ss[k]),
        ss[k].len() == ss[0].len(),
        S::content(ms[k], ss[k]) == S::content(ms[0], ss[0]),
        S::origin(ms[k]) == S::origin(ms[0]),
    decreases k,
{
    if k > 0 {
        lemma_run_point::<S>(ms, ss, k - 1);
        S::lemma_step(ms[k - 1], ss[k - 1], ms[k], ss[k]);
    }
}

/// A run that reaches a finished configuration has then a sequence in
/// non-decreasing order, of the length it began with, that holds the values
/// the run began with.
pub proof fn lemma_convergence<S: Sorter>(ms: Seq<S::V>, ss: Seq<Seq<usize>>)
    requires
        is_run::<S>(ms, ss),
        S::status(ms.last()).finished,
    ensures
        sorted(ss.last()),
        ss.last().len() == ss[0].len(),
        ss.last().to_multiset() == S::content(ms[0], ss[0]),
        ms[0] == S::origin(ms[0]) && ss[0].len() <= usize::MAX ==> ss.last().to_multiset()
            == ss[0].to_multiset(),
{
    let k = ms.len() - 1;
    lemma_run_point::<S>(ms, ss, k);
    S::lemma_inv(ms[k], ss[k]);
    if ms[0] == S::origin(ms[0]) && ss[0].len() <= usize::MAX {
        S::lemma_initial(ms[0], ss[0]);
    }
}

/// A step from a finished configuration changes neither the configuration
/// nor the sequence.
pub proof fn lemma_completion_is_final<S: Sorter>(
    m: S::V,
    s: Seq<usize>,
    m2: S::V,
    s2: Seq<usize>,
)
    requires
        S::inv(m, s),
        S::status(m).finished,
        S::step_spec(m, s, m2, s2),
    ensures
        m2 == m,
        s2 == s,
        S::status(m2).finished,
{
    S::lemma_step(m, s, m2, s2);
}

/// Along a run neither counter ever falls.
pub proof fn lemma_counters_monotone<S: Sorter>(
    ms: Seq<S::V>,
    ss: Seq<Seq<usize>>,
    i: int,
    j: int,
)
    requires
        is_run::<S>(ms, ss),
        0 <= i <= j < ms.len(),
    ensures
        S::status(ms[i]).comparisons <= S::status(ms[j]).comparisons,
        S::status(ms[i]).swaps <= S::status(ms[j]).swaps,
    decreases j - i,
{
    if i < j {
        lemma_counters_monotone::<S>(ms, ss, i, j - 1);
        lemma_run_point::<S>(ms, ss, j - 1);
        S::lemma_step(ms[j - 1], ss[j - 1], ms[j], ss[j]);
    }
}

/// A machine that has not run yet, as `new` and `reset_state` leave it, has
/// both counters at zero.
pub proof fn lemma_counters_start_at_zero<S: Sorter>(m: S::V)
    ensures
        S::status(S::origin(m)).comparisons == 0,
        S::status(S::origin(m)).swaps == 0,
        !S::status(S::origin(m)).finished,
{
    S::lemma_origin(m);
}

/// Wherever a run that began with a machine that had not run yet has come
/// to, `reset_state` returns the machine to the configuration in which the
/// run began.
pub proof fn lemma_reset_returns<S: Sorter>(ms: Seq<S::V>, ss: Seq<Seq<usize>>, k: int)
    requires
        is_run::<S>(ms, ss),
        ms[0] == S::origin(ms[0]),
        0 <= k < ms.len(),
    ensures
        S::origin(ms[k]) == ms[0],
{
    lemma_run_point::<S>(ms, ss, k);
}

/// At every point of a run the highlighted pair is absent or both its
/// indices point into the sequence.
pub proof fn lemma_highlight_valid<S: Sorter>(ms: Seq<S::V>, ss: Seq<Seq<usize>>, k: int)
    requires
        is_run::<S>(ms, ss),
        0 <= k < ms.len(),
    ensures
        highlight_valid(S::status(ms[k]).special, ss[k].len()),
{
    lemma_run_point::<S>(ms, ss, k);
    S::lemma_inv(ms[k], ss[k]);
}

/// As long as a run of a deterministic machine is not complete, each of its
/// steps has used up some of the budget that it began with.
pub proof fn lemma_run_uses_budget<S: Sorter>(ms: Seq<S::V>, ss: Seq<Seq<usize>>, k: int)
    requires
        is_run::<S>(ms, ss),
        S::deterministic(ms[0]),
        0 <= k < ms.len(),
        !S::status(ms[k]).finished,
    ensures
        S::budget(ms[k], ss[k]) + k <= S::budget(ms[0], ss[0]),
    decreases k,
{
    if k > 0 {
        lemma_run_point::<S>(ms, ss, k - 1);
        S::lemma_step(ms[k - 1], ss[k - 1], ms[k], ss[k]);
        lemma_run_uses_budget::<S>(ms, ss, k - 1);
        S::lemma_origin(ms[0]);
        S::lemma_origin(ms[k - 1]);
        S::lemma_progress(ms[k - 1], ss[k - 1], ms[k], ss[k]);
    }
}

/// A run of a deterministic machine that has taken as many steps as the
/// budget it began with is complete: the machine is finished, and the sequence is
/// sorted and holds the values the run began with.
pub proof fn lemma_run_ends<S: Sorter>(ms: Seq<S::V>, ss: Seq<Seq<usize>>)
    requires
        is_run::<S>(ms, ss),
        S::deterministic(ms[0]),
        ms.len() > S::budget(ms[0], ss[0]),
    ensures
        S::status(ms.last()).finished,
        sorted(ss.last()),
        ss.last().to_multiset() == S::content(ms[0], ss[0]),
{
    let k = ms.len() - 1;
    if !S::status(ms[k]).finished {
        lemma_run_uses_budget::<S>(ms, ss, k);
        lemma_run_point::<S>(ms, ss, k);
        S::lemma_origin(ms[0]);
        S::lemma_origin(ms[k]);
        S::lemma_inv(ms[k], ss[k]);
    }
    lemma_convergence::<S>(ms, ss);
}

/// Two runs of a deterministic machine that begin in the same configuration
/// over the same sequence pass through the same configurations and
/// sequences, and so show the same highlights and reasons. Since `new` and
/// `reset_state` both give the initial configuration, a run after a reset
/// repeats the first run.
pub proof fn lemma_replay<S: Sorter>(
    ms1: Seq<S::V>,
    ss1: Seq<Seq<usize>>,
    ms2: Seq<S::V>,
    ss2: Seq<Seq<usize>>,
    k: int,
)
    requires
        S::deterministic(ms1[0]),
        is_run::<S>(ms1, ss1),
        is_run::<S>(ms2, ss2),
        ms1[0] == ms2[0],
        ss1[0] == ss2[0],
        0 <= k < ms1.len(),
        k < ms2.len(),
    ensures
        ms1[k] == ms2[k],
        ss1[k] == ss2[k],
        S::status(ms1[k]).special == S::status(ms2[k]).special,
        S::status(ms1[k]).reason == S::status(ms2[k]).reason,
    decreases k,
{
    if k > 0 {
        lemma_replay::<S>(ms1, ss1, ms2, ss2, k - 1);
        lemma_run_point::<S>(ms1, ss1, k - 1);
        S::lemma_origin(ms1[0]);
        S::lemma_origin(ms1[k - 1]);
        S::lemma_deterministic(ms1[k - 1], ss1[k - 1], ms1[k], ss1[k], ms2[k], ss2[k]);
    }
}

/// What a counter of exchanges shows after `e` exchanges: their number,
/// held at the largest `usize`.
pub open spec fn counted(e: int) -> usize {
    if e < usize::MAX {
        e as usize
    } else {
        usize::MAX
    }
}

/// The step from the counter of exchanges `c` and the sequence `s` to `c2`
/// and `s2` either leaves both as they are, or takes one inversion out of
/// the sequence and counts one exchange.
pub open spec fn counts_inversion(c: usize, s: Seq<usize>, c2: usize, s2: Seq<usize>) -> bool {
    ||| s2 == s && c2 == c
    ||| inversions(s2) + 1 == inversions(s) && c2 == raise(c, 1)
}

/// The step number `k` of the run counts as `counts_inversion` says.
pub open spec fn step_counts_inversion<S: Sorter>(
    ms: Seq<S::V>,
    ss: Seq<Seq<usize>>,
    k: int,
) -> bool {
    counts_inversion(S::status(ms[k]).swaps, ss[k], S::status(ms[k + 1]).swaps, ss[k + 1])
}

/// In a run that begins with no exchange counted and of which every step
/// counts one exchange for each inversion that it takes out of the
/// sequence, and changes the sequence in no other way, the counter shows
/// at every point the number of inversions that the sequence has lost.
pub proof fn lemma_exchanges_counted<S: Sorter>(ms: Seq<S::V>, ss: Seq<Seq<usize>>, k: int)
    requires
        is_run::<S>(ms, ss),
        S::status(ms[0]).swaps == 0,
        forall|j: int| 0 <= j < ms.len() - 1 ==> #[trigger] step_counts_inversion::<S>(ms, ss, j),
        0 <= k < ms.len(),
    ensures
        inversions(ss[k]) <= inversions(ss[0]),
        S::status(ms[k]).swaps == counted(inversions(ss[0]) - inversions(ss[k])),
    decreases k,
{
    if k > 0 {
        lemma_exchanges_counted::<S>(ms, ss, k - 1);
        assert(step_counts_inversion::<S>(ms, ss, k - 1));
    }
}

/// The machine of configuration `m` over the sequence `s` can come to the
/// configuration `m2` and the sequence `s2` by a run in which it is not
/// finished before its end.
pub open spec fn runs_to<S: Sorter>(m: S::V, s: Seq<usize>, m2: S::V, s2: Seq<usize>) -> bool {
    exists|ms: Seq<S::V>, ss: Seq<Seq<usize>>|
        #![trigger is_run::<S>(ms, ss)]
        {
            &&& is_run::<S>(ms, ss)
            &&& ms[0] == m
            &&& ss[0] == s
            &&& ms.last() == m2
            &&& ss.last() == s2
            &&& forall|k: int| 0 <= k < ms.len() - 1 ==> !S::status(#[trigger] ms[k]).finished
        }
}

/// Drives a deterministic machine to the end of its run: step by step
/// until it is finished. The sequence is then sorted and holds the values
/// that the run was sorting.
pub fn run_to_completion<S: Sorter>(sorter: &mut S, array: &mut Vec<usize>)
    requires
        S::inv(old(sorter)@, old(array)@),
        S::deterministic(old(sorter)@),
    ensures
        runs_to::<S>(old(sorter)@, old(array)@, final(sorter)@, final(array)@),
        S::inv(final(sorter)@, final(array)@),
        S::status(final(sorter)@).finished,
        S::origin(final(sorter)@) == S::origin(old(sorter)@),
        sorted(final(array)@),
        final(array)@.len() == old(array)@.len(),
        final(array)@.to_multiset() == S::content(old(sorter)@, old(array)@),
{
    let ghost mut ms: Seq<S::V> = seq![sorter@];
    let ghost mut ss: Seq<Seq<usize>> = seq![array@];
    let mut done = sorter.is_finished();
    while !done
        invariant
            is_run::<S>(ms, ss),
            ms[0] == old(sorter)@,
            ss[0] == old(array)@,
            ms.last() == sorter@,
            ss.last() == array@,
            forall|k: int| 0 <= k < ms.len() - 1 ==> !S::status(#[trigger] ms[k]).finished,
            S::inv(sorter@, array@),
            S::deterministic(sorter@),
            done == S::status(sorter@).finished,
        decreases S::budget(sorter@, array@),
    {
        let ghost m = sorter@;
        let ghost s = array@;
        let ghost ms0 = ms;
        let ghost ss0 = ss;
        done = sorter.step(array);
        proof {
            S::lemma_origin(m);
            S::lemma_origin(sorter@);
            S::lemma_step(m, s, sorter@, array@);
            ms = ms0.push(sorter@);
            ss = ss0.push(array@);
            assert forall|k: int| 0 <= k < ms.len() - 1 implies S::step_spec(
                #[trigger] ms[k],
                ss[k],
                ms[k + 1],
                ss[k + 1],
            ) by {
                if k < ms0.len() - 1 {
                    assert(S::step_spec(ms0[k], ss0[k], ms0[k + 1], ss0[k + 1]));
                }
            }
            assert forall|k: int| 0 <= k < ms.len() - 1 implies !S::status(
                #[trigger] ms[k],
            ).finished by {
                if k < ms0.len() - 1 {
                    assert(!S::status(ms0[k]).finished);
                }
            }
        }
    }
    proof {
        lemma_convergence::<S>(ms, ss);
        lemma_run_point::<S>(ms, ss, ms.len() - 1);
    }
}

} // verus!
