use sorting_visualizer::algorithms::bogo_sort::BogoSort;
use sorting_visualizer::algorithms::bubble_sort::BubbleSort;
use sorting_visualizer::algorithms::cocktail_sort::CocktailSort;
use sorting_visualizer::algorithms::comb_sort::CombSort;
use sorting_visualizer::algorithms::counting_sort::CountingSort;
use sorting_visualizer::algorithms::gnome_sort::GnomeSort;
use sorting_visualizer::algorithms::heap_sort::HeapSort;
use sorting_visualizer::algorithms::insertion_sort::InsertionSort;
use sorting_visualizer::algorithms::merge_sort::MergeSort;
use sorting_visualizer::algorithms::odd_even_sort::OddEvenSort;
use sorting_visualizer::algorithms::pancake_sort::PancakeSort;
use sorting_visualizer::algorithms::quick_sort::QuickSort;
use sorting_visualizer::algorithms::selection_sort::SelectionSort;
use sorting_visualizer::algorithms::shell_sort::ShellSort;
use sorting_visualizer::algorithms::{Reasons, Sorter};

fn run<S: Sorter>(sorter: &mut S, values: &mut Vec<usize>, limit: usize) -> usize {
    let mut steps = 0;
    while steps < limit {
        steps += 1;
        if sorter.step(values) {
            return steps;
        }
    }
    panic!("no completion within {} steps", limit);
}

fn trace<S: Sorter>(
    sorter: &mut S,
    values: &mut Vec<usize>,
    limit: usize,
) -> Vec<((usize, usize), Reasons)> {
    let mut seen = Vec::new();
    while seen.len() < limit {
        let done = sorter.step(values);
        seen.push((sorter.special(), sorter.reason()));
        if done {
            return seen;
        }
    }
    panic!("no completion within {} steps", limit);
}

fn scrambled(len: usize, seed: u64, below: usize) -> Vec<usize> {
    let mut state = seed;
    let mut values = Vec::new();
    for _ in 0..len {
        state = state.wrapping_mul(6364136223846793005).wrapping_add(1442695040888963407);
        values.push(((state >> 33) as usize) % below);
    }
    values
}

fn in_order(values: &[usize]) -> Vec<usize> {
    let mut copy = values.to_vec();
    copy.sort();
    copy
}

fn check_sorts<S: Sorter>(make: fn() -> S) {
    for (len, seed, below) in [(2, 1, 2), (3, 2, 3), (7, 3, 5), (16, 4, 100), (33, 5, 8), (40, 6, 1000)] {
        let input = scrambled(len, seed, below);
        let mut values = input.clone();
        let mut sorter = make();
        assert!(!sorter.is_finished());
        run(&mut sorter, &mut values, 200_000);
        assert_eq!(values, in_order(&input));
        assert!(sorter.is_finished());
    }
}

fn check_trivial<S: Sorter>(make: fn() -> S) {
    for input in [vec![], vec![7]] {
        let mut values = input.clone();
        let mut sorter = make();
        assert!(sorter.step(&mut values));
        assert!(sorter.is_finished());
        assert_eq!(values, input);
        assert_eq!(sorter.comparisons(), 0);
        assert_eq!(sorter.swaps(), 0);
        assert_eq!(sorter.special(), (usize::MAX, usize::MAX));
    }
}

fn check_five<S: Sorter>(make: fn() -> S) -> (usize, usize, usize) {
    let mut values = vec![5, 3, 1, 4, 2];
    let mut sorter = make();
    let steps = run(&mut sorter, &mut values, 10_000);
    assert_eq!(values, vec![1, 2, 3, 4, 5]);
    let mut again = vec![5, 3, 1, 4, 2];
    let mut second = make();
    assert_eq!(run(&mut second, &mut again, 10_000), steps);
    assert_eq!(second.swaps(), sorter.swaps());
    (steps, sorter.comparisons(), sorter.swaps())
}

fn check_equal_values<S: Sorter>(make: fn() -> S) {
    let mut values = vec![2, 2, 2];
    let mut sorter = make();
    run(&mut sorter, &mut values, 1_000);
    assert_eq!(values, vec![2, 2, 2]);
    assert!(sorter.is_finished());
    assert_eq!(sorter.swaps(), 0);
}

#[test]
fn bubble_sorts_scrambled_sequences() {
    check_sorts(<BubbleSort as Sorter>::new);
}

#[test]
fn bubble_is_complete_at_once_on_short_sequences() {
    check_trivial(<BubbleSort as Sorter>::new);
}

#[test]
fn selection_sorts_scrambled_sequences() {
    check_sorts(<SelectionSort as Sorter>::new);
}

#[test]
fn selection_is_complete_at_once_on_short_sequences() {
    check_trivial(<SelectionSort as Sorter>::new);
}

#[test]
fn insertion_sorts_scrambled_sequences() {
    check_sorts(<InsertionSort as Sorter>::new);
}

#[test]
fn insertion_is_complete_at_once_on_short_sequences() {
    check_trivial(<InsertionSort as Sorter>::new);
}

#[test]
fn merge_sorts_scrambled_sequences() {
    check_sorts(<MergeSort as Sorter>::new);
}

#[test]
fn merge_is_complete_at_once_on_short_sequences() {
    check_trivial(<MergeSort as Sorter>::new);
}

#[test]
fn quick_sorts_scrambled_sequences() {
    check_sorts(<QuickSort as Sorter>::new);
}

#[test]
fn quick_is_complete_at_once_on_short_sequences() {
    check_trivial(<QuickSort as Sorter>::new);
}

#[test]
fn heap_sorts_scrambled_sequences() {
    check_sorts(<HeapSort as Sorter>::new);
}

#[test]
fn heap_is_complete_at_once_on_short_sequences() {
    check_trivial(<HeapSort as Sorter>::new);
}

#[test]
fn counting_sorts_scrambled_sequences() {
    check_sorts(<CountingSort as Sorter>::new);
}

#[test]
fn counting_is_complete_at_once_on_short_sequences() {
    check_trivial(<CountingSort as Sorter>::new);
}

#[test]
fn cocktail_sorts_scrambled_sequences() {
    check_sorts(<CocktailSort as Sorter>::new);
}

#[test]
fn cocktail_is_complete_at_once_on_short_sequences() {
    check_trivial(<CocktailSort as Sorter>::new);
}

#[test]
fn gnome_sorts_scrambled_sequences() {
    check_sorts(<GnomeSort as Sorter>::new);
}

#[test]
fn gnome_is_complete_at_once_on_short_sequences() {
    check_trivial(<GnomeSort as Sorter>::new);
}

#[test]
fn pancake_sorts_scrambled_sequences() {
    check_sorts(<PancakeSort as Sorter>::new);
}

#[test]
fn pancake_is_complete_at_once_on_short_sequences() {
    check_trivial(<PancakeSort as Sorter>::new);
}

#[test]
fn shell_sorts_scrambled_sequences() {
    check_sorts(<ShellSort as Sorter>::new);
}

#[test]
fn shell_is_complete_at_once_on_short_sequences() {
    check_trivial(<ShellSort as Sorter>::new);
}

#[test]
fn comb_sorts_scrambled_sequences() {
    check_sorts(<CombSort as Sorter>::new);
}

#[test]
fn comb_is_complete_at_once_on_short_sequences() {
    check_trivial(<CombSort as Sorter>::new);
}

#[test]
fn odd_even_sorts_scrambled_sequences() {
    check_sorts(<OddEvenSort as Sorter>::new);
}

#[test]
fn odd_even_is_complete_at_once_on_short_sequences() {
    check_trivial(<OddEvenSort as Sorter>::new);
}

#[test]
fn bogo_is_complete_at_once_on_short_sequences() {
    check_trivial(<BogoSort as Sorter>::new);
}

#[test]
fn bogo_sorts_by_shuffling() {
    for seed in [0, 1, 2, 3] {
        let input = vec![3, 1, 4, 2, 0];
        let mut values = input.clone();
        let mut sorter = BogoSort::with_seed(seed);
        let steps = run(&mut sorter, &mut values, 1_000_000);
        assert_eq!(values, vec![0, 1, 2, 3, 4]);
        assert!(steps > 1);
        assert_eq!(sorter.comparisons(), steps);
        assert_eq!(sorter.swaps(), steps - 1);
    }
}

#[test]
fn bogo_with_one_seed_repeats_its_run() {
    let mut first = vec![3, 1, 4, 2];
    let mut second = first.clone();
    let mut a = BogoSort::with_seed(42);
    let mut b = BogoSort::with_seed(42);
    for _ in 0..20 {
        let done_a = a.step(&mut first);
        let done_b = b.step(&mut second);
        assert_eq!(done_a, done_b);
        assert_eq!(first, second);
        assert_eq!(in_order(&first), vec![1, 2, 3, 4]);
    }
}

#[test]
fn bogo_leaves_a_sorted_sequence_alone() {
    let mut values = vec![1, 2, 2, 9];
    let mut sorter = <BogoSort as Sorter>::new();
    assert!(sorter.step(&mut values));
    assert_eq!(values, vec![1, 2, 2, 9]);
    assert_eq!(sorter.reason(), Reasons::Comparing);
    assert_eq!(sorter.comparisons(), 1);
    assert_eq!(sorter.swaps(), 0);
}

#[test]
fn bogo_shuffle_is_switching() {
    let mut values = vec![2, 1];
    let mut sorter = BogoSort::with_seed(7);
    assert!(!sorter.step(&mut values));
    assert_eq!(in_order(&values), vec![1, 2]);
    assert_eq!(sorter.reason(), Reasons::Switching);
    assert_eq!(sorter.special(), (usize::MAX, usize::MAX));
    assert_eq!(sorter.swaps(), 1);
}

#[test]
fn bogo_is_sorted_check() {
    let sorter = BogoSort::with_seed(0);
    assert!(sorter.is_sorted_check(&[]));
    assert!(sorter.is_sorted_check(&[4]));
    assert!(sorter.is_sorted_check(&[1, 1, 2, 3]));
    assert!(!sorter.is_sorted_check(&[1, 3, 2]));
    assert!(!sorter.is_sorted_check(&[2, 1]));
}

#[test]
fn adjacent_exchanges_on_five_values_are_its_inversions() {
    assert_eq!(check_five(BubbleSort::new).2, 7);
    assert_eq!(check_five(CocktailSort::new).2, 7);
    assert_eq!(check_five(OddEvenSort::new).2, 7);
    assert_eq!(check_five(GnomeSort::new).2, 7);
    assert_eq!(check_five(<InsertionSort as Sorter>::new).2, 7);
}

#[test]
fn exchange_sorts_on_five_values_take_four_swaps_or_more() {
    assert!(check_five(BubbleSort::new).2 >= 4);
    assert!(check_five(CocktailSort::new).2 >= 4);
    assert!(check_five(OddEvenSort::new).2 >= 4);
    assert!(check_five(GnomeSort::new).2 >= 4);
    assert!(check_five(CombSort::new).2 >= 4);
}

#[test]
fn comb_on_five_values() {
    assert_eq!(check_five(CombSort::new).2, 5);
}

#[test]
fn shell_on_five_values() {
    let (steps, comparisons, swaps) = check_five(ShellSort::new);
    assert_eq!(swaps, 3);
    assert_eq!(comparisons, 13);
    assert_eq!(steps, 16);
}

#[test]
fn other_sorts_on_five_values() {
    check_five(<SelectionSort as Sorter>::new);
    check_five(<MergeSort as Sorter>::new);
    check_five(<QuickSort as Sorter>::new);
    check_five(<HeapSort as Sorter>::new);
    check_five(<CountingSort as Sorter>::new);
    check_five(PancakeSort::new);
}

#[test]
fn equal_values_need_no_swap() {
    check_equal_values(BubbleSort::new);
    check_equal_values(CocktailSort::new);
    check_equal_values(OddEvenSort::new);
    check_equal_values(CombSort::new);
    check_equal_values(GnomeSort::new);
    check_equal_values(ShellSort::new);
    check_equal_values(<InsertionSort as Sorter>::new);
    check_equal_values(<SelectionSort as Sorter>::new);
    check_equal_values(PancakeSort::new);
}

#[test]
fn quick_on_one_value_never_partitions() {
    let mut values = vec![1];
    let mut sorter = <QuickSort as Sorter>::new();
    assert!(sorter.step(&mut values));
    assert_eq!(values, vec![1]);
    assert_eq!(sorter.comparisons(), 0);
    assert_eq!(sorter.swaps(), 0);
    assert!(sorter.step(&mut values));
    assert_eq!(sorter.swaps(), 0);
}

#[test]
fn quick_on_two_values_takes_one_pass_and_one_swap() {
    let mut values = vec![3, 1];
    let mut sorter = <QuickSort as Sorter>::new();
    assert!(sorter.step(&mut values));
    assert_eq!(values, vec![1, 3]);
    assert_eq!(sorter.swaps(), 1);
    assert_eq!(sorter.comparisons(), 1);
    assert!(sorter.step(&mut values));
    assert_eq!(values, vec![1, 3]);
    assert_eq!(sorter.swaps(), 1);
    assert_eq!(sorter.comparisons(), 1);
}

#[test]
fn counting_sorts_large_and_small_values() {
    let mut values = vec![9, 0, 9, 3, 0, 1];
    let mut sorter = <CountingSort as Sorter>::new();
    run(&mut sorter, &mut values, 1_000);
    assert_eq!(values, vec![0, 0, 1, 3, 9, 9]);
    assert_eq!(sorter.comparisons(), 6);
    assert_eq!(sorter.swaps(), 6);
}

#[test]
fn bogo_shuffle_is_fixed_by_the_sum_of_seed_and_round() {
    let input: Vec<usize> = (0..16).rev().collect();
    let mut first = input.clone();
    let mut a = BogoSort::with_seed(10);
    assert!(!a.step(&mut first));
    let after_one = first.clone();
    assert_ne!(after_one, input);
    assert!(!a.step(&mut first));
    let after_two = first.clone();
    let mut second = after_one.clone();
    let mut b = BogoSort::with_seed(11);
    assert!(!b.step(&mut second));
    assert_eq!(second, after_two);
    let mut third = after_one.clone();
    let mut c = BogoSort::with_seed(10);
    assert!(!c.step(&mut third));
    assert_ne!(third, after_two);
}

#[test]
fn bogo_rounds_wrap_round_the_largest_seed() {
    let input: Vec<usize> = (0..16).rev().collect();
    let mut first = input.clone();
    let mut a = BogoSort::with_seed(u64::MAX);
    assert!(!a.step(&mut first));
    let after_one = first.clone();
    assert!(!a.step(&mut first));
    let mut second = after_one.clone();
    let mut b = BogoSort::with_seed(0);
    assert!(!b.step(&mut second));
    assert_eq!(second, first);
}

#[test]
fn bogo_repeats_its_run_after_a_reset() {
    let input = vec![4, 1, 3, 0, 2];
    let mut values = input.clone();
    let mut sorter = BogoSort::with_seed(3);
    let mut seen = Vec::new();
    for _ in 0..10 {
        sorter.step(&mut values);
        seen.push(values.clone());
    }
    sorter.reset_state();
    let mut values = input.clone();
    for expected in &seen {
        sorter.step(&mut values);
        assert_eq!(&values, expected);
    }
}

fn inversions(values: &[usize]) -> usize {
    let mut count = 0;
    for j in 0..values.len() {
        for i in 0..j {
            if values[i] > values[j] {
                count += 1;
            }
        }
    }
    count
}

fn check_counts_inversions<S: Sorter>(make: fn() -> S) {
    for (len, seed, below) in [(0, 1, 2), (1, 1, 2), (2, 5, 2), (9, 2, 4), (20, 3, 100), (31, 4, 7)] {
        let input = scrambled(len, seed, below);
        let mut values = input.clone();
        let mut sorter = make();
        let mut left = inversions(&input);
        let mut swaps = 0;
        loop {
            let done = sorter.step(&mut values);
            let now = inversions(&values);
            assert!(now == left || now + 1 == left);
            assert_eq!(sorter.swaps(), swaps + (left - now));
            swaps = sorter.swaps();
            left = now;
            if done {
                break;
            }
        }
        assert_eq!(sorter.swaps(), inversions(&input));
        assert_eq!(left, 0);
    }
}

#[test]
fn inversions_are_counted_pair_by_pair() {
    assert_eq!(inversions(&[5, 3, 1, 4, 2]), 7);
    assert_eq!(inversions(&[1, 2, 3]), 0);
    assert_eq!(inversions(&[2, 2, 1]), 2);
}

#[test]
fn gnome_counts_the_inversions_of_its_input() {
    check_counts_inversions(GnomeSort::new);
}

#[test]
fn bubble_counts_the_inversions_of_its_input() {
    check_counts_inversions(BubbleSort::new);
}

#[test]
fn cocktail_counts_the_inversions_of_its_input() {
    check_counts_inversions(CocktailSort::new);
}

#[test]
fn odd_even_counts_the_inversions_of_its_input() {
    check_counts_inversions(OddEvenSort::new);
}

#[test]
fn insertion_counts_the_inversions_of_its_input() {
    check_counts_inversions(<InsertionSort as Sorter>::new);
}
