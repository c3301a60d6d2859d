use sorting_visualizer::algorithms::bogo_sort::BogoSort;
use sorting_visualizer::algorithms::bubble_sort::BubbleSort;
use sorting_visualizer::algorithms::cocktail_sort::CocktailSort;
use sorting_visualizer::algorithms::comb_sort::CombSort;
use sorting_visualizer::algorithms::counting_sort::CountingSort;
use sorting_visualizer::algorithms::gnome_sort::GnomeSort;
use sorting_visualizer::algorithms::heap_sort::HeapSort;
use sorting_visualizer::algorithms::insertion_sort::InsertionSort;
use sorting_visualizer::algorithms::merge_sort::MergeSort;
use sorting_visualizer::algorithms::odd_even_sort::OddEvenSort;
use sorting_visualizer::algorithms::pancake_sort::PancakeSort;
use sorting_visualizer::algorithms::quick_sort::QuickSort;
use sorting_visualizer::algorithms::selection_sort::SelectionSort;
use sorting_visualizer::algorithms::shell_sort::ShellSort;
use sorting_visualizer::algorithms::{Reasons, Sorter, Status, NO_INDEX};

fn scrambled(len: usize, seed: u64, below: usize) -> Vec<usize> {
    let mut state = seed;
    let mut values = Vec::new();
    for _ in 0..len {
        state = state.wrapping_mul(6364136223846793005).wrapping_add(1442695040888963407);
        values.push(((state >> 33) as usize) % below);
    }
    values
}

fn observe<S: Sorter>(
    sorter: &mut S,
    values: &mut Vec<usize>,
) -> Vec<((usize, usize), Reasons)> {
    let len = values.len();
    let mut seen = Vec::new();
    let mut comparisons = sorter.comparisons();
    let mut swaps = sorter.swaps();
    for _ in 0..200_000 {
        let done = sorter.step(values);
        let (a, b) = sorter.special();
        assert!((a == NO_INDEX && b == NO_INDEX) || (a < len && b < len));
        assert!(sorter.comparisons() >= comparisons);
        assert!(sorter.swaps() >= swaps);
        assert_eq!(values.len(), len);
        assert_eq!(done, sorter.is_finished());
        comparisons = sorter.comparisons();
        swaps = sorter.swaps();
        seen.push((sorter.special(), sorter.reason()));
        if done {
            return seen;
        }
    }
    panic!("no completion");
}

fn check_laws<S: Sorter>(make: fn() -> S) {
    for (len, seed, below) in [(0, 1, 2), (1, 1, 2), (2, 7, 2), (5, 8, 5), (12, 9, 50), (25, 10, 6)] {
        let input = scrambled(len, seed, below);
        let mut values = input.clone();
        let mut sorter = make();
        assert_eq!(sorter.special(), (NO_INDEX, NO_INDEX));
        assert_eq!(sorter.comparisons(), 0);
        assert_eq!(sorter.swaps(), 0);
        let first = observe(&mut sorter, &mut values);
        let sorted = values.clone();
        let (special, reason) = (sorter.special(), sorter.reason());
        let (comparisons, swaps) = (sorter.comparisons(), sorter.swaps());
        for _ in 0..3 {
            assert!(sorter.step(&mut values));
            assert_eq!(values, sorted);
            assert_eq!(sorter.special(), special);
            assert_eq!(sorter.reason(), reason);
            assert_eq!(sorter.comparisons(), comparisons);
            assert_eq!(sorter.swaps(), swaps);
        }
        sorter.reset_state();
        assert!(!sorter.is_finished());
        assert_eq!(sorter.comparisons(), 0);
        assert_eq!(sorter.swaps(), 0);
        assert_eq!(sorter.special(), (NO_INDEX, NO_INDEX));
        assert_eq!(sorter.reason(), Reasons::Comparing);
        assert_eq!(values, sorted);
        let mut again = input.clone();
        let second = observe(&mut sorter, &mut again);
        assert_eq!(first, second);
        assert_eq!(again, sorted);
        assert_eq!(sorter.comparisons(), comparisons);
        assert_eq!(sorter.swaps(), swaps);
    }
}

#[test]
fn bubble_keeps_the_laws() {
    check_laws(<BubbleSort as Sorter>::new);
}

#[test]
fn selection_keeps_the_laws() {
    check_laws(<SelectionSort as Sorter>::new);
}

#[test]
fn insertion_keeps_the_laws() {
    check_laws(<InsertionSort as Sorter>::new);
}

#[test]
fn merge_keeps_the_laws() {
    check_laws(<MergeSort as Sorter>::new);
}

#[test]
fn quick_keeps_the_laws() {
    check_laws(<QuickSort as Sorter>::new);
}

#[test]
fn heap_keeps_the_laws() {
    check_laws(<HeapSort as Sorter>::new);
}

#[test]
fn counting_keeps_the_laws() {
    check_laws(<CountingSort as Sorter>::new);
}

#[test]
fn cocktail_keeps_the_laws() {
    check_laws(<CocktailSort as Sorter>::new);
}

#[test]
fn gnome_keeps_the_laws() {
    check_laws(<GnomeSort as Sorter>::new);
}

#[test]
fn pancake_keeps_the_laws() {
    check_laws(<PancakeSort as Sorter>::new);
}

#[test]
fn shell_keeps_the_laws() {
    check_laws(<ShellSort as Sorter>::new);
}

#[test]
fn comb_keeps_the_laws() {
    check_laws(<CombSort as Sorter>::new);
}

#[test]
fn odd_even_keeps_the_laws() {
    check_laws(<OddEvenSort as Sorter>::new);
}

#[test]
fn bogo_keeps_the_laws_of_every_run() {
    let input = vec![2, 0, 3, 1];
    let mut values = input.clone();
    let mut sorter = BogoSort::with_seed(5);
    observe(&mut sorter, &mut values);
    assert_eq!(values, vec![0, 1, 2, 3]);
    let counted = sorter.comparisons();
    assert!(sorter.step(&mut values));
    assert_eq!(values, vec![0, 1, 2, 3]);
    assert_eq!(sorter.comparisons(), counted);
    sorter.reset_state();
    assert!(!sorter.is_finished());
    assert_eq!(sorter.comparisons(), 0);
    assert_eq!(sorter.swaps(), 0);
    let mut again = input.clone();
    observe(&mut sorter, &mut again);
    assert_eq!(again, vec![0, 1, 2, 3]);
}

#[test]
fn reset_in_the_middle_of_a_run_starts_over() {
    let input = vec![9, 4, 7, 1, 8, 2];
    let mut values = input.clone();
    let mut sorter = <HeapSort as Sorter>::new();
    let whole = observe(&mut sorter, &mut values);
    sorter.reset_state();
    let mut values = input.clone();
    for _ in 0..5 {
        sorter.step(&mut values);
    }
    sorter.reset_state();
    let mut values = input.clone();
    assert_eq!(observe(&mut sorter, &mut values), whole);
}

#[test]
fn status_counts_and_saturates() {
    let fresh = Status::new();
    assert_eq!(fresh.special, (NO_INDEX, NO_INDEX));
    assert_eq!(fresh.reason, Reasons::Comparing);
    assert!(!fresh.finished);
    assert_eq!((fresh.comparisons, fresh.swaps), (0, 0));
    let seen = fresh.note_visit(3, 4, true);
    assert_eq!(seen.special, (3, 4));
    assert_eq!(seen.reason, Reasons::Switching);
    assert_eq!((seen.comparisons, seen.swaps), (1, 1));
    let seen = seen.note_visit(4, 5, false);
    assert_eq!(seen.reason, Reasons::Comparing);
    assert_eq!((seen.comparisons, seen.swaps), (2, 1));
    let seen = seen.note_work(0, 9, 10, 0);
    assert_eq!(seen.reason, Reasons::Comparing);
    assert_eq!((seen.comparisons, seen.swaps), (12, 1));
    let seen = seen.note_work(0, 9, usize::MAX, 2);
    assert_eq!(seen.reason, Reasons::Switching);
    assert_eq!((seen.comparisons, seen.swaps), (usize::MAX, 3));
    let seen = seen.note_visit(1, 2, false);
    assert_eq!(seen.comparisons, usize::MAX);
    let seen = seen.note_move(7, 7);
    assert_eq!(seen.special, (7, 7));
    assert_eq!(seen.reason, Reasons::Switching);
    assert_eq!(seen.swaps, 4);
    let seen = seen.note(1, 2, Reasons::Switching, 0, 0);
    assert_eq!(seen.reason, Reasons::Switching);
    assert_eq!(seen.swaps, 4);
    let idle = seen.note_idle();
    assert_eq!(idle.special, (NO_INDEX, NO_INDEX));
    assert_eq!(idle.reason, Reasons::Comparing);
    assert_eq!(idle.swaps, 4);
    let done = seen.note_finish();
    assert!(done.finished);
    assert_eq!(done.special, (NO_INDEX, NO_INDEX));
    assert_eq!(done.reason, Reasons::Switching);
}

#[test]
fn swap_exchanges_two_positions() {
    let mut values = vec![1, 2, 3];
    sorting_visualizer::algorithms::swap(&mut values, 0, 2);
    assert_eq!(values, vec![3, 2, 1]);
    sorting_visualizer::algorithms::swap(&mut values, 1, 1);
    assert_eq!(values, vec![3, 2, 1]);
}
