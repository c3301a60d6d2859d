//! One type for all sorting machines, for a caller that picks the
//! algorithm while it runs.

use super::bogo_sort::{bogo_initial, BogoModel, BogoSort};
use super::bubble_sort::{bubble_initial, BubbleModel, BubbleSort};
use super::cocktail_sort::{cocktail_initial, CocktailModel, CocktailSort};
use super::comb_sort::{comb_initial, CombModel, CombSort};
use super::counting_sort::{counting_initial, CountingModel, CountingSort};
use super::gnome_sort::{gnome_initial, GnomeModel, GnomeSort};
use super::heap_sort::{heap_initial, HeapModel, HeapSort};
use super::insertion_sort::{insertion_initial, InsertionModel, InsertionSort};
use super::merge_sort::{merge_initial, MergeModel, MergeSort};
use super::odd_even_sort::{odd_even_initial, OddEvenModel, OddEvenSort};
use super::pancake_sort::{pancake_initial, PancakeModel, PancakeSort};
use super::quick_sort::{quick_initial, QuickModel, QuickSort};
use super::selection_sort::{selection_initial, SelectionModel, SelectionSort};
use super::shell_sort::{shell_initial, ShellModel, ShellSort};
use super::{Reasons, Sorter, Status};
use crate::types::Algorithms;
use vstd::multiset::Multiset;
use vstd::prelude::*;

verus! {

/// A sorting machine of any of the algorithms.
pub enum AnySorter {
    Bubble(BubbleSort),
    Selection(SelectionSort),
    Insertion(InsertionSort),
    Merge(MergeSort),
    Bogo(BogoSort),
    Quick(QuickSort),
    Heap(HeapSort),
    Counting(CountingSort),
    Cocktail(CocktailSort),
    Gnome(GnomeSort),
    Pancake(PancakeSort),
    Shell(ShellSort),
    Comb(CombSort),
    OddEven(OddEvenSort),
}

/// The configuration of a sorting machine of any of the algorithms.
pub enum AnyModel {
    Bubble(BubbleModel),
    Selection(SelectionModel),
    Insertion(InsertionModel),
    Merge(MergeModel),
    Bogo(BogoModel),
    Quick(QuickModel),
    Heap(HeapModel),
    Counting(CountingModel),
    Cocktail(CocktailModel),
    Gnome(GnomeModel),
    Pancake(PancakeModel),
    Shell(ShellModel),
    Comb(CombModel),
    OddEven(OddEvenModel),
}

impl View for AnySorter {
    type V = AnyModel;

    open spec fn view(&self) -> AnyModel {
        match *self {
            AnySorter::Bubble(x) => AnyModel::Bubble(x@),
            AnySorter::Selection(x) => AnyModel::Selection(x@),
            AnySorter::Insertion(x) => AnyModel::Insertion(x@),
            AnySorter::Merge(x) => AnyModel::Merge(x@),
            AnySorter::Bogo(x) => AnyModel::Bogo(x@),
            AnySorter::Quick(x) => AnyModel::Quick(x@),
            AnySorter::Heap(x) => AnyModel::Heap(x@),
            AnySorter::Counting(x) => AnyModel::Counting(x@),
            AnySorter::Cocktail(x) => AnyModel::Cocktail(x@),
            AnySorter::Gnome(x) => AnyModel::Gnome(x@),
            AnySorter::Pancake(x) => AnyModel::Pancake(x@),
            AnySorter::Shell(x) => AnyModel::Shell(x@),
            AnySorter::Comb(x) => AnyModel::Comb(x@),
            AnySorter::OddEven(x) => AnyModel::OddEven(x@),
        }
    }
}

/// The algorithm that a configuration belongs to.
pub open spec fn algorithm_of(m: AnyModel) -> Algorithms {
    match m {
        AnyModel::Bubble(_) => Algorithms::Bubble,
        AnyModel::Selection(_) => Algorithms::Selection,
        AnyModel::Insertion(_) => Algorithms::Insertion,
        AnyModel::Merge(_) => Algorithms::Merge,
        AnyModel::Bogo(_) => Algorithms::Bogo,
        AnyModel::Quick(_) => Algorithms::Quick,
        AnyModel::Heap(_) => Algorithms::Heap,
        AnyModel::Counting(_) => Algorithms::Counting,
        AnyModel::Cocktail(_) => Algorithms::Cocktail,
        AnyModel::Gnome(_) => Algorithms::Gnome,
        AnyModel::Pancake(_) => Algorithms::Pancake,
        AnyModel::Shell(_) => Algorithms::Shell,
        AnyModel::Comb(_) => Algorithms::Comb,
        AnyModel::OddEven(_) => Algorithms::OddEven,
    }
}

/// The configuration of a machine of the algorithm `a` that has not run
/// yet, made with `seed` where the algorithm shuffles.
pub open spec fn any_initial(a: Algorithms, seed: u64) -> AnyModel {
    match a {
        Algorithms::Bubble => AnyModel::Bubble(bubble_initial()),
        Algorithms::Selection => AnyModel::Selection(selection_initial()),
        Algorithms::Insertion => AnyModel::Insertion(insertion_initial()),
        Algorithms::Merge => AnyModel::Merge(merge_initial()),
        Algorithms::Bogo => AnyModel::Bogo(bogo_initial(seed)),
        Algorithms::Quick => AnyModel::Quick(quick_initial()),
        Algorithms::Heap => AnyModel::Heap(heap_initial()),
        Algorithms::Counting => AnyModel::Counting(counting_initial()),
        Algorithms::Cocktail => AnyModel::Cocktail(cocktail_initial()),
        Algorithms::Gnome => AnyModel::Gnome(gnome_initial()),
        Algorithms::Pancake => AnyModel::Pancake(pancake_initial()),
        Algorithms::Shell => AnyModel::Shell(shell_initial()),
        Algorithms::Comb => AnyModel::Comb(comb_initial()),
        Algorithms::OddEven => AnyModel::OddEven(odd_even_initial()),
    }
}

impl AnySorter {
    /// A machine of the algorithm `a` that has not run yet, with the seed 0
    /// where it shuffles.
    pub fn for_algorithm(a: Algorithms) -> (r: Self)
        ensures
            r@ == any_initial(a, 0),
            r@ == Self::origin(r@),
            algorithm_of(r@) == a,
            Self::status(r@) == Status::fresh(),
            forall|s: Seq<usize>| s.len() <= usize::MAX ==> Self::inv(r@, s),
    {
        match a {
            Algorithms::Bubble => AnySorter::Bubble(<BubbleSort as Sorter>::new()),
            Algorithms::Selection => AnySorter::Selection(<SelectionSort as Sorter>::new()),
            Algorithms::Insertion => AnySorter::Insertion(<InsertionSort as Sorter>::new()),
            Algorithms::Merge => AnySorter::Merge(<MergeSort as Sorter>::new()),
            Algorithms::Bogo => AnySorter::Bogo(<BogoSort as Sorter>::new()),
            Algorithms::Quick => AnySorter::Quick(<QuickSort as Sorter>::new()),
            Algorithms::Heap => AnySorter::Heap(<HeapSort as Sorter>::new()),
            Algorithms::Counting => AnySorter::Counting(<CountingSort as Sorter>::new()),
            Algorithms::Cocktail => AnySorter::Cocktail(<CocktailSort as Sorter>::new()),
            Algorithms::Gnome => AnySorter::Gnome(<GnomeSort as Sorter>::new()),
            Algorithms::Pancake => AnySorter::Pancake(<PancakeSort as Sorter>::new()),
            Algorithms::Shell => AnySorter::Shell(<ShellSort as Sorter>::new()),
            Algorithms::Comb => AnySorter::Comb(<CombSort as Sorter>::new()),
            Algorithms::OddEven => AnySorter::OddEven(<OddEvenSort as Sorter>::new()),
        }
    }

    /// A machine of the algorithm `a` that has not run yet. Where it
    /// shuffles, its shuffles are fixed by `seed`.
    pub fn for_algorithm_seeded(a: Algorithms, seed: u64) -> (r: Self)
        ensures
            r@ == any_initial(a, seed),
            r@ == Self::origin(r@),
            algorithm_of(r@) == a,
            Self::status(r@) == Status::fresh(),
            forall|s: Seq<usize>| s.len() <= usize::MAX ==> Self::inv(r@, s),
    {
        match a {
            Algorithms::Bogo => {
                let sorter = BogoSort::with_seed(seed);
                proof {
                    assert forall|s: Seq<usize>| s.len() <= usize::MAX implies BogoSort::inv(
                        sorter@,
                        s,
                    ) by {
                        BogoSort::lemma_initial(sorter@, s);
                    }
                }
                AnySorter::Bogo(sorter)
            },
            _ => AnySorter::for_algorithm(a),
        }
    }

    /// The algorithm of this machine.
    pub fn algorithm(&self) -> (a: Algorithms)
        ensures
            a == algorithm_of(self@),
    {
        match self {
            AnySorter::Bubble(_) => Algorithms::Bubble,
            AnySorter::Selection(_) => Algorithms::Selection,
            AnySorter::Insertion(_) => Algorithms::Insertion,
            AnySorter::Merge(_) => Algorithms::Merge,
            AnySorter::Bogo(_) => Algorithms::Bogo,
            AnySorter::Quick(_) => Algorithms::Quick,
            AnySorter::Heap(_) => Algorithms::Heap,
            AnySorter::Counting(_) => Algorithms::Counting,
            AnySorter::Cocktail(_) => Algorithms::Cocktail,
            AnySorter::Gnome(_) => Algorithms::Gnome,
            AnySorter::Pancake(_) => Algorithms::Pancake,
            AnySorter::Shell(_) => Algorithms::Shell,
            AnySorter::Comb(_) => Algorithms::Comb,
            AnySorter::OddEven(_) => Algorithms::OddEven,
        }
    }
}

impl Sorter for AnySorter {
    open spec fn origin(m: AnyModel) -> AnyModel {
        match m {
            AnyModel::Bubble(x) => AnyModel::Bubble(BubbleSort::origin(x)),
            AnyModel::Selection(x) => AnyModel::Selection(SelectionSort::origin(x)),
            AnyModel::Insertion(x) => AnyModel::Insertion(InsertionSort::origin(x)),
            AnyModel::Merge(x) => AnyModel::Merge(MergeSort::origin(x)),
            AnyModel::Bogo(x) => AnyModel::Bogo(BogoSort::origin(x)),
            AnyModel::Quick(x) => AnyModel::Quick(QuickSort::origin(x)),
            AnyModel::Heap(x) => AnyModel::Heap(HeapSort::origin(x)),
            AnyModel::Counting(x) => AnyModel::Counting(CountingSort::origin(x)),
            AnyModel::Cocktail(x) => AnyModel::Cocktail(CocktailSort::origin(x)),
            AnyModel::Gnome(x) => AnyModel::Gnome(GnomeSort::origin(x)),
            AnyModel::Pancake(x) => AnyModel::Pancake(PancakeSort::origin(x)),
            AnyModel::Shell(x) => AnyModel::Shell(ShellSort::origin(x)),
            AnyModel::Comb(x) => AnyModel::Comb(CombSort::origin(x)),
            AnyModel::OddEven(x) => AnyModel::OddEven(OddEvenSort::origin(x)),
        }
    }

    open spec fn status(m: AnyModel) -> Status {
        match m {
            AnyModel::Bubble(x) => BubbleSort::status(x),
            AnyModel::Selection(x) => SelectionSort::status(x),
            AnyModel::Insertion(x) => InsertionSort::status(x),
            AnyModel::Merge(x) => MergeSort::status(x),
            AnyModel::Bogo(x) => BogoSort::status(x),
            AnyModel::Quick(x) => QuickSort::status(x),
            AnyModel::Heap(x) => HeapSort::status(x),
            AnyModel::Counting(x) => CountingSort::status(x),
            AnyModel::Cocktail(x) => CocktailSort::status(x),
            AnyModel::Gnome(x) => GnomeSort::status(x),
            AnyModel::Pancake(x) => PancakeSort::status(x),
            AnyModel::Shell(x) => ShellSort::status(x),
            AnyModel::Comb(x) => CombSort::status(x),
            AnyModel::OddEven(x) => OddEvenSort::status(x),
        }
    }

    open spec fn inv(m: AnyModel, s: Seq<usize>) -> bool {
        match m {
            AnyModel::Bubble(x) => BubbleSort::inv(x, s),
            AnyModel::Selection(x) => SelectionSort::inv(x, s),
            AnyModel::Insertion(x) => InsertionSort::inv(x, s),
            AnyModel::Merge(x) => MergeSort::inv(x, s),
            AnyModel::Bogo(x) => BogoSort::inv(x, s),
            AnyModel::Quick(x) => QuickSort::inv(x, s),
            AnyModel::Heap(x) => HeapSort::inv(x, s),
            AnyModel::Counting(x) => CountingSort::inv(x, s),
            AnyModel::Cocktail(x) => CocktailSort::inv(x, s),
            AnyModel::Gnome(x) => GnomeSort::inv(x, s),
            AnyModel::Pancake(x) => PancakeSort::inv(x, s),
            AnyModel::Shell(x) => ShellSort::inv(x, s),
            AnyModel::Comb(x) => CombSort::inv(x, s),
            AnyModel::OddEven(x) => OddEvenSort::inv(x, s),
        }
    }

    open spec fn content(m: AnyModel, s: Seq<usize>) -> Multiset<usize> {
        match m {
            AnyModel::Bubble(x) => BubbleSort::content(x, s),
            AnyModel::Selection(x) => SelectionSort::content(x, s),
            AnyModel::Insertion(x) => InsertionSort::content(x, s),
            AnyModel::Merge(x) => MergeSort::content(x, s),
            AnyModel::Bogo(x) => BogoSort::content(x, s),
            AnyModel::Quick(x) => QuickSort::content(x, s),
            AnyModel::Heap(x) => HeapSort::content(x, s),
            AnyModel::Counting(x) => CountingSort::content(x, s),
            AnyModel::Cocktail(x) => CocktailSort::content(x, s),
            AnyModel::Gnome(x) => GnomeSort::content(x, s),
            AnyModel::Pancake(x) => PancakeSort::content(x, s),
            AnyModel::Shell(x) => ShellSort::content(x, s),
            AnyModel::Comb(x) => CombSort::content(x, s),
            AnyModel::OddEven(x) => OddEvenSort::content(x, s),
        }
    }

    open spec fn step_spec(m: AnyModel, s: Seq<usize>, m2: AnyModel, s2: Seq<usize>) -> bool {
        match (m, m2) {
            (AnyModel::Bubble(x), AnyModel::Bubble(y)) => BubbleSort::step_spec(x, s, y, s2),
            (AnyModel::Selection(x), AnyModel::Selection(y)) => SelectionSort::step_spec(x, s, y, s2),
            (AnyModel::Insertion(x), AnyModel::Insertion(y)) => InsertionSort::step_spec(x, s, y, s2),
            (AnyModel::Merge(x), AnyModel::Merge(y)) => MergeSort::step_spec(x, s, y, s2),
            (AnyModel::Bogo(x), AnyModel::Bogo(y)) => BogoSort::step_spec(x, s, y, s2),
            (AnyModel::Quick(x), AnyModel::Quick(y)) => QuickSort::step_spec(x, s, y, s2),
            (AnyModel::Heap(x), AnyModel::Heap(y)) => HeapSort::step_spec(x, s, y, s2),
            (AnyModel::Counting(x), AnyModel::Counting(y)) => CountingSort::step_spec(x, s, y, s2),
            (AnyModel::Cocktail(x), AnyModel::Cocktail(y)) => CocktailSort::step_spec(x, s, y, s2),
            (AnyModel::Gnome(x), AnyModel::Gnome(y)) => GnomeSort::step_spec(x, s, y, s2),
            (AnyModel::Pancake(x), AnyModel::Pancake(y)) => PancakeSort::step_spec(x, s, y, s2),
            (AnyModel::Shell(x), AnyModel::Shell(y)) => ShellSort::step_spec(x, s, y, s2),
            (AnyModel::Comb(x), AnyModel::Comb(y)) => CombSort::step_spec(x, s, y, s2),
            (AnyModel::OddEven(x), AnyModel::OddEven(y)) => OddEvenSort::step_spec(x, s, y, s2),
            _ => false,
        }
    }

    open spec fn deterministic(m: AnyModel) -> bool {
        match m {
            AnyModel::Bubble(x) => BubbleSort::deterministic(x),
            AnyModel::Selection(x) => SelectionSort::deterministic(x),
            AnyModel::Insertion(x) => InsertionSort::deterministic(x),
            AnyModel::Merge(x) => MergeSort::deterministic(x),
            AnyModel::Bogo(x) => BogoSort::deterministic(x),
            AnyModel::Quick(x) => QuickSort::deterministic(x),
            AnyModel::Heap(x) => HeapSort::deterministic(x),
            AnyModel::Counting(x) => CountingSort::deterministic(x),
            AnyModel::Cocktail(x) => CocktailSort::deterministic(x),
            AnyModel::Gnome(x) => GnomeSort::deterministic(x),
            AnyModel::Pancake(x) => PancakeSort::deterministic(x),
            AnyModel::Shell(x) => ShellSort::deterministic(x),
            AnyModel::Comb(x) => CombSort::deterministic(x),
            AnyModel::OddEven(x) => OddEvenSort::deterministic(x),
        }
    }

    open spec fn budget(m: AnyModel, s: Seq<usize>) -> nat {
        match m {
            AnyModel::Bubble(x) => BubbleSort::budget(x, s),
            AnyModel::Selection(x) => SelectionSort::budget(x, s),
            AnyModel::Insertion(x) => InsertionSort::budget(x, s),
            AnyModel::Merge(x) => MergeSort::budget(x, s),
            AnyModel::Bogo(x) => BogoSort::budget(x, s),
            AnyModel::Quick(x) => QuickSort::budget(x, s),
            AnyModel::Heap(x) => HeapSort::budget(x, s),
            AnyModel::Counting(x) => CountingSort::budget(x, s),
            AnyModel::Cocktail(x) => CocktailSort::budget(x, s),
            AnyModel::Gnome(x) => GnomeSort::budget(x, s),
            AnyModel::Pancake(x) => PancakeSort::budget(x, s),
            AnyModel::Shell(x) => ShellSort::budget(x, s),
            AnyModel::Comb(x) => CombSort::budget(x, s),
            AnyModel::OddEven(x) => OddEvenSort::budget(x, s),
        }
    }

    proof fn lemma_initial(m: AnyModel, s: Seq<usize>) {
        match m {
            AnyModel::Bubble(x) => BubbleSort::lemma_initial(x, s),
            AnyModel::Selection(x) => SelectionSort::lemma_initial(x, s),
            AnyModel::Insertion(x) => InsertionSort::lemma_initial(x, s),
            AnyModel::Merge(x) => MergeSort::lemma_initial(x, s),
            AnyModel::Bogo(x) => BogoSort::lemma_initial(x, s),
            AnyModel::Quick(x) => QuickSort::lemma_initial(x, s),
            AnyModel::Heap(x) => HeapSort::lemma_initial(x, s),
            AnyModel::Counting(x) => CountingSort::lemma_initial(x, s),
            AnyModel::Cocktail(x) => CocktailSort::lemma_initial(x, s),
            AnyModel::Gnome(x) => GnomeSort::lemma_initial(x, s),
            AnyModel::Pancake(x) => PancakeSort::lemma_initial(x, s),
            AnyModel::Shell(x) => ShellSort::lemma_initial(x, s),
            AnyModel::Comb(x) => CombSort::lemma_initial(x, s),
            AnyModel::OddEven(x) => OddEvenSort::lemma_initial(x, s),
        }
    }

    proof fn lemma_origin(m: AnyModel) {
        match m {
            AnyModel::Bubble(x) => BubbleSort::lemma_origin(x),
            AnyModel::Selection(x) => SelectionSort::lemma_origin(x),
            AnyModel::Insertion(x) => InsertionSort::lemma_origin(x),
            AnyModel::Merge(x) => MergeSort::lemma_origin(x),
            AnyModel::Bogo(x) => BogoSort::lemma_origin(x),
            AnyModel::Quick(x) => QuickSort::lemma_origin(x),
            AnyModel::Heap(x) => HeapSort::lemma_origin(x),
            AnyModel::Counting(x) => CountingSort::lemma_origin(x),
            AnyModel::Cocktail(x) => CocktailSort::lemma_origin(x),
            AnyModel::Gnome(x) => GnomeSort::lemma_origin(x),
            AnyModel::Pancake(x) => PancakeSort::lemma_origin(x),
            AnyModel::Shell(x) => ShellSort::lemma_origin(x),
            AnyModel::Comb(x) => CombSort::lemma_origin(x),
            AnyModel::OddEven(x) => OddEvenSort::lemma_origin(x),
        }
    }

    proof fn lemma_inv(m: AnyModel, s: Seq<usize>) {
        match m {
            AnyModel::Bubble(x) => BubbleSort::lemma_inv(x, s),
            AnyModel::Selection(x) => SelectionSort::lemma_inv(x, s),
            AnyModel::Insertion(x) => InsertionSort::lemma_inv(x, s),
            AnyModel::Merge(x) => MergeSort::lemma_inv(x, s),
            AnyModel::Bogo(x) => BogoSort::lemma_inv(x, s),
            AnyModel::Quick(x) => QuickSort::lemma_inv(x, s),
            AnyModel::Heap(x) => HeapSort::lemma_inv(x, s),
            AnyModel::Counting(x) => CountingSort::lemma_inv(x, s),
            AnyModel::Cocktail(x) => CocktailSort::lemma_inv(x, s),
            AnyModel::Gnome(x) => GnomeSort::lemma_inv(x, s),
            AnyModel::Pancake(x) => PancakeSort::lemma_inv(x, s),
            AnyModel::Shell(x) => ShellSort::lemma_inv(x, s),
            AnyModel::Comb(x) => CombSort::lemma_inv(x, s),
            AnyModel::OddEven(x) => OddEvenSort::lemma_inv(x, s),
        }
    }

    proof fn lemma_step(m: AnyModel, s: Seq<usize>, m2: AnyModel, s2: Seq<usize>) {
        match (m, m2) {
            (AnyModel::Bubble(x), AnyModel::Bubble(y)) => BubbleSort::lemma_step(x, s, y, s2),
            (AnyModel::Selection(x), AnyModel::Selection(y)) => SelectionSort::lemma_step(x, s, y, s2),
            (AnyModel::Insertion(x), AnyModel::Insertion(y)) => InsertionSort::lemma_step(x, s, y, s2),
            (AnyModel::Merge(x), AnyModel::Merge(y)) => MergeSort::lemma_step(x, s, y, s2),
            (AnyModel::Bogo(x), AnyModel::Bogo(y)) => BogoSort::lemma_step(x, s, y, s2),
            (AnyModel::Quick(x), AnyModel::Quick(y)) => QuickSort::lemma_step(x, s, y, s2),
            (AnyModel::Heap(x), AnyModel::Heap(y)) => HeapSort::lemma_step(x, s, y, s2),
            (AnyModel::Counting(x), AnyModel::Counting(y)) => CountingSort::lemma_step(x, s, y, s2),
            (AnyModel::Cocktail(x), AnyModel::Cocktail(y)) => CocktailSort::lemma_step(x, s, y, s2),
            (AnyModel::Gnome(x), AnyModel::Gnome(y)) => GnomeSort::lemma_step(x, s, y, s2),
            (AnyModel::Pancake(x), AnyModel::Pancake(y)) => PancakeSort::lemma_step(x, s, y, s2),
            (AnyModel::Shell(x), AnyModel::Shell(y)) => ShellSort::lemma_step(x, s, y, s2),
            (AnyModel::Comb(x), AnyModel::Comb(y)) => CombSort::lemma_step(x, s, y, s2),
            (AnyModel::OddEven(x), AnyModel::OddEven(y)) => OddEvenSort::lemma_step(x, s, y, s2),
            _ => {},
        }
    }

    proof fn lemma_progress(m: AnyModel, s: Seq<usize>, m2: AnyModel, s2: Seq<usize>) {
        match (m, m2) {
            (AnyModel::Bubble(x), AnyModel::Bubble(y)) => BubbleSort::lemma_progress(x, s, y, s2),
            (AnyModel::Selection(x), AnyModel::Selection(y)) => SelectionSort::lemma_progress(x, s, y, s2),
            (AnyModel::Insertion(x), AnyModel::Insertion(y)) => InsertionSort::lemma_progress(x, s, y, s2),
            (AnyModel::Merge(x), AnyModel::Merge(y)) => MergeSort::lemma_progress(x, s, y, s2),
            (AnyModel::Bogo(x), AnyModel::Bogo(y)) => BogoSort::lemma_progress(x, s, y, s2),
            (AnyModel::Quick(x), AnyModel::Quick(y)) => QuickSort::lemma_progress(x, s, y, s2),
            (AnyModel::Heap(x), AnyModel::Heap(y)) => HeapSort::lemma_progress(x, s, y, s2),
            (AnyModel::Counting(x), AnyModel::Counting(y)) => CountingSort::lemma_progress(x, s, y, s2),
            (AnyModel::Cocktail(x), AnyModel::Cocktail(y)) => CocktailSort::lemma_progress(x, s, y, s2),
            (AnyModel::Gnome(x), AnyModel::Gnome(y)) => GnomeSort::lemma_progress(x, s, y, s2),
            (AnyModel::Pancake(x), AnyModel::Pancake(y)) => PancakeSort::lemma_progress(x, s, y, s2),
            (AnyModel::Shell(x), AnyModel::Shell(y)) => ShellSort::lemma_progress(x, s, y, s2),
            (AnyModel::Comb(x), AnyModel::Comb(y)) => CombSort::lemma_progress(x, s, y, s2),
            (AnyModel::OddEven(x), AnyModel::OddEven(y)) => OddEvenSort::lemma_progress(x, s, y, s2),
            _ => {},
        }
    }

    proof fn lemma_deterministic(
        m: AnyModel,
        s: Seq<usize>,
        m2: AnyModel,
        s2: Seq<usize>,
        m3: AnyModel,
        s3: Seq<usize>,
    ) {
        match (m, m2, m3) {
            (AnyModel::Bubble(x), AnyModel::Bubble(y), AnyModel::Bubble(z)) => BubbleSort::lemma_deterministic(x, s, y, s2, z, s3),
            (AnyModel::Selection(x), AnyModel::Selection(y), AnyModel::Selection(z)) => SelectionSort::lemma_deterministic(x, s, y, s2, z, s3),
            (AnyModel::Insertion(x), AnyModel::Insertion(y), AnyModel::Insertion(z)) => InsertionSort::lemma_deterministic(x, s, y, s2, z, s3),
            (AnyModel::Merge(x), AnyModel::Merge(y), AnyModel::Merge(z)) => MergeSort::lemma_deterministic(x, s, y, s2, z, s3),
            (AnyModel::Bogo(x), AnyModel::Bogo(y), AnyModel::Bogo(z)) => BogoSort::lemma_deterministic(x, s, y, s2, z, s3),
            (AnyModel::Quick(x), AnyModel::Quick(y), AnyModel::Quick(z)) => QuickSort::lemma_deterministic(x, s, y, s2, z, s3),
            (AnyModel::Heap(x), AnyModel::Heap(y), AnyModel::Heap(z)) => HeapSort::lemma_deterministic(x, s, y, s2, z, s3),
            (AnyModel::Counting(x), AnyModel::Counting(y), AnyModel::Counting(z)) => CountingSort::lemma_deterministic(x, s, y, s2, z, s3),
            (AnyModel::Cocktail(x), AnyModel::Cocktail(y), AnyModel::Cocktail(z)) => CocktailSort::lemma_deterministic(x, s, y, s2, z, s3),
            (AnyModel::Gnome(x), AnyModel::Gnome(y), AnyModel::Gnome(z)) => GnomeSort::lemma_deterministic(x, s, y, s2, z, s3),
            (AnyModel::Pancake(x), AnyModel::Pancake(y), AnyModel::Pancake(z)) => PancakeSort::lemma_deterministic(x, s, y, s2, z, s3),
            (AnyModel::Shell(x), AnyModel::Shell(y), AnyModel::Shell(z)) => ShellSort::lemma_deterministic(x, s, y, s2, z, s3),
            (AnyModel::Comb(x), AnyModel::Comb(y), AnyModel::Comb(z)) => CombSort::lemma_deterministic(x, s, y, s2, z, s3),
            (AnyModel::OddEven(x), AnyModel::OddEven(y), AnyModel::OddEven(z)) => OddEvenSort::lemma_deterministic(x, s, y, s2, z, s3),
            _ => {},
        }
    }

    /// A bubble sort that has not run yet.
    fn new() -> (r: Self)
        ensures
            r@ == any_initial(Algorithms::Bubble, 0),
    {
        AnySorter::Bubble(<BubbleSort as Sorter>::new())
    }

    fn special(&self) -> (r: (usize, usize)) {
        match self {
            AnySorter::Bubble(x) => x.special(),
            AnySorter::Selection(x) => x.special(),
            AnySorter::Insertion(x) => x.special(),
            AnySorter::Merge(x) => x.special(),
            AnySorter::Bogo(x) => x.special(),
            AnySorter::Quick(x) => x.special(),
            AnySorter::Heap(x) => x.special(),
            AnySorter::Counting(x) => x.special(),
            AnySorter::Cocktail(x) => x.special(),
            AnySorter::Gnome(x) => x.special(),
            AnySorter::Pancake(x) => x.special(),
            AnySorter::Shell(x) => x.special(),
            AnySorter::Comb(x) => x.special(),
            AnySorter::OddEven(x) => x.special(),
        }
    }

    fn reason(&self) -> (r: Reasons) {
        match self {
            AnySorter::Bubble(x) => x.reason(),
            AnySorter::Selection(x) => x.reason(),
            AnySorter::Insertion(x) => x.reason(),
            AnySorter::Merge(x) => x.reason(),
            AnySorter::Bogo(x) => x.reason(),
            AnySorter::Quick(x) => x.reason(),
            AnySorter::Heap(x) => x.reason(),
            AnySorter::Counting(x) => x.reason(),
            AnySorter::Cocktail(x) => x.reason(),
            AnySorter::Gnome(x) => x.reason(),
            AnySorter::Pancake(x) => x.reason(),
            AnySorter::Shell(x) => x.reason(),
            AnySorter::Comb(x) => x.reason(),
            AnySorter::OddEven(x) => x.reason(),
        }
    }

    #[verifier::rlimit(50)]
    fn step(&mut self, array: &mut Vec<usize>) -> (done: bool) {
        match self {
            AnySorter::Bubble(x) => x.step(array),
            AnySorter::Selection(x) => x.step(array),
            AnySorter::Insertion(x) => x.step(array),
            AnySorter::Merge(x) => x.step(array),
            AnySorter::Bogo(x) => x.step(array),
            AnySorter::Quick(x) => x.step(array),
            AnySorter::Heap(x) => x.step(array),
            AnySorter::Counting(x) => x.step(array),
            AnySorter::Cocktail(x) => x.step(array),
            AnySorter::Gnome(x) => x.step(array),
            AnySorter::Pancake(x) => x.step(array),
            AnySorter::Shell(x) => x.step(array),
            AnySorter::Comb(x) => x.step(array),
            AnySorter::OddEven(x) => x.step(array),
        }
    }

    fn reset_state(&mut self) {
        match self {
            AnySorter::Bubble(x) => x.reset_state(),
            AnySorter::Selection(x) => x.reset_state(),
            AnySorter::Insertion(x) => x.reset_state(),
            AnySorter::Merge(x) => x.reset_state(),
            AnySorter::Bogo(x) => x.reset_state(),
            AnySorter::Quick(x) => x.reset_state(),
            AnySorter::Heap(x) => x.reset_state(),
            AnySorter::Counting(x) => x.reset_state(),
            AnySorter::Cocktail(x) => x.reset_state(),
            AnySorter::Gnome(x) => x.reset_state(),
            AnySorter::Pancake(x) => x.reset_state(),
            AnySorter::Shell(x) => x.reset_state(),
            AnySorter::Comb(x) => x.reset_state(),
            AnySorter::OddEven(x) => x.reset_state(),
        }
    }

    fn is_finished(&self) -> (r: bool) {
        match self {
            AnySorter::Bubble(x) => x.is_finished(),
            AnySorter::Selection(x) => x.is_finished(),
            AnySorter::Insertion(x) => x.is_finished(),
            AnySorter::Merge(x) => x.is_finished(),
            AnySorter::Bogo(x) => x.is_finished(),
            AnySorter::Quick(x) => x.is_finished(),
            AnySorter::Heap(x) => x.is_finished(),
            AnySorter::Counting(x) => x.is_finished(),
            AnySorter::Cocktail(x) => x.is_finished(),
            AnySorter::Gnome(x) => x.is_finished(),
            AnySorter::Pancake(x) => x.is_finished(),
            AnySorter::Shell(x) => x.is_finished(),
            AnySorter::Comb(x) => x.is_finished(),
            AnySorter::OddEven(x) => x.is_finished(),
        }
    }

    fn comparisons(&self) -> (r: usize) {
        match self {
            AnySorter::Bubble(x) => x.comparisons(),
            AnySorter::Selection(x) => x.comparisons(),
            AnySorter::Insertion(x) => x.comparisons(),
            AnySorter::Merge(x) => x.comparisons(),
            AnySorter::Bogo(x) => x.comparisons(),
            AnySorter::Quick(x) => x.comparisons(),
            AnySorter::Heap(x) => x.comparisons(),
            AnySorter::Counting(x) => x.comparisons(),
            AnySorter::Cocktail(x) => x.comparisons(),
            AnySorter::Gnome(x) => x.comparisons(),
            AnySorter::Pancake(x) => x.comparisons(),
            AnySorter::Shell(x) => x.comparisons(),
            AnySorter::Comb(x) => x.comparisons(),
            AnySorter::OddEven(x) => x.comparisons(),
        }
    }

    fn swaps(&self) -> (r: usize) {
        match self {
            AnySorter::Bubble(x) => x.swaps(),
            AnySorter::Selection(x) => x.swaps(),
            AnySorter::Insertion(x) => x.swaps(),
            AnySorter::Merge(x) => x.swaps(),
            AnySorter::Bogo(x) => x.swaps(),
            AnySorter::Quick(x) => x.swaps(),
            AnySorter::Heap(x) => x.swaps(),
            AnySorter::Counting(x) => x.swaps(),
            AnySorter::Cocktail(x) => x.swaps(),
            AnySorter::Gnome(x) => x.swaps(),
            AnySorter::Pancake(x) => x.swaps(),
            AnySorter::Shell(x) => x.swaps(),
            AnySorter::Comb(x) => x.swaps(),
            AnySorter::OddEven(x) => x.swaps(),
        }
    }
}

} // verus!
