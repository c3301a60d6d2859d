//! Gnome sort: one cursor that steps forward over pairs in order and
//! carries a value back while it is smaller than its left neighbour.

use super::potential::{
    inversions, lemma_neighbours_exchange_inversions, lemma_sorted_no_inversions,
};
use super::runs::{
    counted, counts_inversion, is_run, lemma_exchanges_counted, lemma_run_point,
    step_counts_inversion,
};
use super::at_least_zero;
use super::potential::{
    disorder, lemma_disorder_bounds, lemma_disorder_exchange, lemma_exchange_lowers_disorder,
    lemma_exchange_raises_disorder, lemma_products,
};
use super::{
    exchange, highlight_valid, lemma_exchange, sorted, sorted_range, swap, Reasons, Sorter, Status,
};
use vstd::multiset::Multiset;
use vstd::prelude::*;

verus! {

/// The state of a gnome sort between two steps.
pub struct GnomeSort {
    status: Status,
    index: usize,
}

/// The configuration of a gnome sort: `index` is the position that is
/// compared with its left neighbour next. The positions before it are in
/// order.
pub struct GnomeModel {
    pub status: Status,
    pub index: int,
}

impl View for GnomeSort {
    type V = GnomeModel;

    closed spec fn view(&self) -> GnomeModel {
        GnomeModel { status: self.status, index: self.index as int }
    }
}

/// The configuration before the first step.
pub open spec fn gnome_initial() -> GnomeModel {
    GnomeModel { status: Status::fresh(), index: 1 }
}

/// One step of the sort.
///
/// A sequence of fewer than two values is complete at once, and so is the
/// sort when the cursor has reached the end. At the first position the
/// cursor only moves on. Elsewhere a step compares the value at the cursor
/// with its left neighbour: in order, the cursor moves on; out of order,
/// the two are exchanged and the cursor moves back with the smaller value.
pub open spec fn gnome_next(m: GnomeModel, s: Seq<usize>) -> (GnomeModel, Seq<usize>) {
    if m.status.finished {
        (m, s)
    } else if s.len() <= 1 || m.index >= s.len() {
        (GnomeModel { status: m.status.idle().finish(), ..m }, s)
    } else if m.index == 0 {
        (GnomeModel { status: m.status.record(0, 0, Reasons::Comparing, 0, 0), index: 1 }, s)
    } else {
        let i = m.index;
        if s[i] >= s[i - 1] {
            (GnomeModel { status: m.status.after_visit(i - 1, i, false), index: i + 1 }, s)
        } else {
            (
                GnomeModel { status: m.status.after_visit(i - 1, i, true), index: i - 1 },
                exchange(s, i, i - 1),
            )
        }
    }
}

/// The configurations that a run over `s` can be in.
pub open spec fn gnome_inv(m: GnomeModel, s: Seq<usize>) -> bool {
    &&& s.len() <= usize::MAX
    &&& highlight_valid(m.status.special, s.len())
    &&& m.status.finished ==> sorted(s)
    &&& 0 <= m.index
    &&& !m.status.finished && s.len() >= 2 ==> {
        &&& m.index <= s.len()
        &&& sorted_range(s, 0, m.index - 1)
    }
}

/// A step of the model keeps the invariant, the length and the values.
pub proof fn lemma_gnome_next(m: GnomeModel, s: Seq<usize>)
    requires
        gnome_inv(m, s),
    ensures
        gnome_inv(gnome_next(m, s).0, gnome_next(m, s).1),
        gnome_next(m, s).1.len() == s.len(),
        gnome_next(m, s).1.to_multiset() == s.to_multiset(),
        m.status.comparisons <= gnome_next(m, s).0.status.comparisons,
        m.status.swaps <= gnome_next(m, s).0.status.swaps,
{
    if !m.status.finished && s.len() >= 2 && 0 < m.index < s.len() {
        lemma_exchange(s, m.index, m.index - 1);
    }
}

/// A bound on the steps that are left.
pub open spec fn gnome_budget(m: GnomeModel, s: Seq<usize>) -> nat {
    if m.status.finished {
        0
    } else {
        1 + at_least_zero(2 * disorder(s) + s.len() + 1 - m.index)
    }
}

/// Every step from a configuration that is not complete lowers the bound.
pub proof fn lemma_gnome_progress(m: GnomeModel, s: Seq<usize>)
    requires
        gnome_inv(m, s),
        !m.status.finished,
    ensures
        gnome_budget(gnome_next(m, s).0, gnome_next(m, s).1) < gnome_budget(m, s),
{
    lemma_disorder_bounds(s);
    if s.len() >= 2 && 0 < m.index < s.len() {
        let i = m.index;
        if s[i] < s[i - 1] {
            assert(exchange(s, i, i - 1) =~= exchange(s, i - 1, i));
            lemma_exchange_lowers_disorder(s, i - 1, i);
            lemma_disorder_bounds(exchange(s, i, i - 1));
        }
    }
}

/// A step either leaves the sequence and the counter of exchanges as they
/// are, or takes one inversion out of the sequence and counts one exchange.
pub proof fn lemma_gnome_step_swaps(m: GnomeModel, s: Seq<usize>)
    requires
        gnome_inv(m, s),
    ensures
        counts_inversion(
            m.status.swaps,
            s,
            gnome_next(m, s).0.status.swaps,
            gnome_next(m, s).1,
        ),
{
    if !m.status.finished && s.len() >= 2 && 0 < m.index < s.len() {
        let i = m.index;
        if s[i] < s[i - 1] {
            assert(exchange(s, i, i - 1) =~= exchange(s, i - 1, i));
            lemma_neighbours_exchange_inversions(s, i - 1);
        }
    }
}

/// At every point of a run of a gnome sort that began with a machine that had
/// not run yet, the counter of exchanges shows the number of inversions
/// that the sequence has lost since.
pub proof fn lemma_gnome_swaps(ms: Seq<GnomeModel>, ss: Seq<Seq<usize>>, k: int)
    requires
        is_run::<GnomeSort>(ms, ss),
        ms[0] == gnome_initial(),
        0 <= k < ms.len(),
    ensures
        inversions(ss[k]) <= inversions(ss[0]),
        ms[k].status.swaps == counted(inversions(ss[0]) - inversions(ss[k])),
{
    assert forall|j: int| 0 <= j < ms.len() - 1 implies #[trigger] step_counts_inversion::<GnomeSort>(
        ms,
        ss,
        j,
    ) by {
        lemma_run_point::<GnomeSort>(ms, ss, j);
        assert(GnomeSort::step_spec(ms[j], ss[j], ms[j + 1], ss[j + 1]));
        lemma_gnome_step_swaps(ms[j], ss[j]);
    }
    lemma_exchanges_counted::<GnomeSort>(ms, ss, k);
}

/// When a gnome sort that began with a machine that had not run yet is
/// finished, its counter of exchanges shows the number of inversions of the
/// sequence that it began with.
pub proof fn lemma_gnome_counts_inversions(ms: Seq<GnomeModel>, ss: Seq<Seq<usize>>)
    requires
        is_run::<GnomeSort>(ms, ss),
        ms[0] == gnome_initial(),
        ms.last().status.finished,
    ensures
        ms.last().status.swaps == counted(inversions(ss[0]) as int),
{
    let k = ms.len() - 1;
    lemma_gnome_swaps(ms, ss, k);
    lemma_run_point::<GnomeSort>(ms, ss, k);
    assert(sorted(ss[k]));
    lemma_sorted_no_inversions(ss[k]);
}

impl GnomeSort {
    /// A machine that has not run yet.
    pub fn new() -> (r: Self)
        ensures
            r@ == gnome_initial(),
    {
        GnomeSort { status: Status::new(), index: 1 }
    }
}

impl Sorter for GnomeSort {
    open spec fn origin(m: GnomeModel) -> GnomeModel {
        gnome_initial()
    }

    open spec fn status(m: GnomeModel) -> Status {
        m.status
    }

    open spec fn inv(m: GnomeModel, s: Seq<usize>) -> bool {
        gnome_inv(m, s)
    }

    open spec fn content(m: GnomeModel, s: Seq<usize>) -> Multiset<usize> {
        s.to_multiset()
    }

    open spec fn step_spec(m: GnomeModel, s: Seq<usize>, m2: GnomeModel, s2: Seq<usize>) -> bool {
        (m2, s2) == gnome_next(m, s)
    }

    open spec fn deterministic(m: GnomeModel) -> bool {
        true
    }

    open spec fn budget(m: GnomeModel, s: Seq<usize>) -> nat {
        gnome_budget(m, s)
    }

    proof fn lemma_initial(m: GnomeModel, s: Seq<usize>) {
    }

    proof fn lemma_origin(m: GnomeModel) {
    }

    proof fn lemma_inv(m: GnomeModel, s: Seq<usize>) {
    }

    proof fn lemma_step(m: GnomeModel, s: Seq<usize>, m2: GnomeModel, s2: Seq<usize>) {
        lemma_gnome_next(m, s);
    }

    proof fn lemma_progress(m: GnomeModel, s: Seq<usize>, m2: GnomeModel, s2: Seq<usize>) {
        lemma_gnome_progress(m, s);
    }

    proof fn lemma_deterministic(
        m: GnomeModel,
        s: Seq<usize>,
        m2: GnomeModel,
        s2: Seq<usize>,
        m3: GnomeModel,
        s3: Seq<usize>,
    ) {
    }

    fn new() -> (r: Self) {
        GnomeSort::new()
    }

    fn special(&self) -> (r: (usize, usize)) {
        self.status.special
    }

    fn reason(&self) -> (r: Reasons) {
        self.status.reason
    }

    fn step(&mut self, array: &mut Vec<usize>) -> (done: bool) {
        proof {
            if !self.status.finished {
                lemma_gnome_progress(self@, array@);
            }
            lemma_gnome_next(self@, array@);
        }
        if self.status.finished {
            return true;
        }
        if array.len() <= 1 {
            self.status = self.status.note_idle().note_finish();
            return true;
        }
        if self.index >= array.len() {
            self.status = self.status.note_idle().note_finish();
        } else if self.index == 0 {
            self.status = self.status.note(0, 0, Reasons::Comparing, 0, 0);
            self.index = 1;
        } else {
            let i = self.index;
            if array[i] >= array[i - 1] {
                self.status = self.status.note_visit(i - 1, i, false);
                self.index = i + 1;
            } else {
                swap(array, i, i - 1);
                self.status = self.status.note_visit(i - 1, i, true);
                self.index = i - 1;
            }
        }
        self.status.finished
    }

    fn reset_state(&mut self) {
        *self = GnomeSort::new();
    }

    fn is_finished(&self) -> (r: bool) {
        self.status.finished
    }

    fn comparisons(&self) -> (r: usize) {
        self.status.comparisons
    }

    fn swaps(&self) -> (r: usize) {
        self.status.swaps
    }
}

} // verus!
