use sorting_visualizer::algorithms::bubble_sort::BubbleSort;
use sorting_visualizer::algorithms::cocktail_sort::CocktailSort;
use sorting_visualizer::algorithms::comb_sort::CombSort;
use sorting_visualizer::algorithms::counting_sort::CountingSort;
use sorting_visualizer::algorithms::gnome_sort::GnomeSort;
use sorting_visualizer::algorithms::heap_sort::HeapSort;
use sorting_visualizer::algorithms::insertion_sort::InsertionSort;
use sorting_visualizer::algorithms::merge_sort::MergeSort;
use sorting_visualizer::algorithms::odd_even_sort::OddEvenSort;
use sorting_visualizer::algorithms::pancake_sort::PancakeSort;
use sorting_visualizer::algorithms::quick_sort::QuickSort;
use sorting_visualizer::algorithms::selection_sort::SelectionSort;
use sorting_visualizer::algorithms::shell_sort::ShellSort;
use sorting_visualizer::algorithms::{Reasons, Sorter, NO_INDEX};

const NONE: (usize, usize) = (NO_INDEX, NO_INDEX);

fn trace<S: Sorter>(
    sorter: &mut S,
    values: &mut Vec<usize>,
    limit: usize,
) -> Vec<((usize, usize), Reasons)> {
    let mut seen = Vec::new();
    while seen.len() < limit {
        let done = sorter.step(values);
        seen.push((sorter.special(), sorter.reason()));
        if done {
            return seen;
        }
    }
    panic!("no completion within {} steps", limit);
}

use Reasons::{Comparing, Switching};

#[test]
fn bubble_trace_on_three_values() {
    let mut values = vec![2, 1, 3];
    let mut sorter = BubbleSort::new();
    let seen = trace(&mut sorter, &mut values, 100);
    assert_eq!(
        seen,
        vec![
            ((0, 1), Switching),
            ((1, 2), Comparing),
            (NONE, Comparing),
            ((0, 1), Comparing),
            (NONE, Comparing),
        ]
    );
    assert_eq!(values, vec![1, 2, 3]);
    assert_eq!(sorter.comparisons(), 3);
    assert_eq!(sorter.swaps(), 1);
}

#[test]
fn bubble_steps_one_pair_at_a_time() {
    let mut values = vec![3, 2, 1];
    let mut sorter = BubbleSort::new();
    assert!(!sorter.step(&mut values));
    assert_eq!(values, vec![2, 3, 1]);
    assert!(!sorter.step(&mut values));
    assert_eq!(values, vec![2, 1, 3]);
    assert_eq!(sorter.special(), (1, 2));
    assert_eq!(sorter.reason(), Switching);
    assert!(!sorter.step(&mut values));
    assert_eq!(sorter.special(), NONE);
    assert!(!sorter.step(&mut values));
    assert_eq!(values, vec![1, 2, 3]);
}

#[test]
fn cocktail_trace_on_two_values() {
    let mut values = vec![2, 1];
    let mut sorter = CocktailSort::new();
    assert!(!sorter.step(&mut values));
    assert_eq!(values, vec![2, 1]);
    assert_eq!(sorter.special(), NONE);
    assert!(sorter.step(&mut values));
    assert_eq!(values, vec![1, 2]);
    assert_eq!(sorter.special(), NONE);
    assert_eq!(sorter.reason(), Switching);
    assert_eq!(sorter.comparisons(), 1);
    assert_eq!(sorter.swaps(), 1);
}

#[test]
fn cocktail_trace_on_four_values() {
    let mut values = vec![4, 1, 3, 2];
    let mut sorter = CocktailSort::new();
    let seen = trace(&mut sorter, &mut values, 100);
    assert_eq!(
        seen,
        vec![
            (NONE, Comparing),
            ((0, 1), Switching),
            ((1, 2), Switching),
            ((2, 3), Switching),
            ((1, 2), Switching),
            ((0, 1), Comparing),
            (NONE, Comparing),
        ]
    );
    assert_eq!(values, vec![1, 2, 3, 4]);
    assert_eq!(sorter.comparisons(), 6);
    assert_eq!(sorter.swaps(), 4);
}

#[test]
fn comb_trace_on_two_values() {
    let mut values = vec![2, 1];
    let mut sorter = CombSort::new();
    let seen = trace(&mut sorter, &mut values, 100);
    assert_eq!(
        seen,
        vec![((0, 1), Switching), (NONE, Comparing), ((0, 1), Comparing), (NONE, Comparing)]
    );
    assert_eq!(values, vec![1, 2]);
    assert_eq!(sorter.comparisons(), 2);
    assert_eq!(sorter.swaps(), 1);
}

#[test]
fn comb_compares_across_the_gap() {
    let mut values = vec![5, 3, 1, 4, 2];
    let mut sorter = CombSort::new();
    assert!(!sorter.step(&mut values));
    assert_eq!(sorter.special(), (0, 3));
    assert_eq!(values, vec![4, 3, 1, 5, 2]);
    assert!(!sorter.step(&mut values));
    assert_eq!(sorter.special(), (1, 4));
    assert_eq!(values, vec![4, 2, 1, 5, 3]);
    assert!(!sorter.step(&mut values));
    assert_eq!(sorter.special(), NONE);
    assert!(!sorter.step(&mut values));
    assert_eq!(sorter.special(), (0, 2));
    assert_eq!(values, vec![1, 2, 4, 5, 3]);
}

#[test]
fn comb_next_gap() {
    assert_eq!(CombSort::get_next_gap(0), 1);
    assert_eq!(CombSort::get_next_gap(1), 1);
    assert_eq!(CombSort::get_next_gap(2), 1);
    assert_eq!(CombSort::get_next_gap(3), 2);
    assert_eq!(CombSort::get_next_gap(5), 3);
    assert_eq!(CombSort::get_next_gap(13), 10);
    assert_eq!(CombSort::get_next_gap(27), 20);
    assert_eq!(CombSort::get_next_gap(100), 76);
    assert_eq!(CombSort::get_next_gap(usize::MAX), usize::MAX / 13 * 10 + (usize::MAX % 13) * 10 / 13);
}

#[test]
fn shell_trace_on_two_values() {
    let mut values = vec![2, 1];
    let mut sorter = ShellSort::new();
    let seen = trace(&mut sorter, &mut values, 100);
    assert_eq!(
        seen,
        vec![((0, 1), Switching), (NONE, Comparing), ((0, 1), Comparing), (NONE, Comparing)]
    );
    assert_eq!(values, vec![1, 2]);
}

#[test]
fn shell_carries_a_value_back_by_the_gap() {
    let mut values = vec![5, 3, 1, 4, 2];
    let mut sorter = ShellSort::new();
    assert!(!sorter.step(&mut values));
    assert_eq!(sorter.special(), (0, 2));
    assert_eq!(values, vec![1, 3, 5, 4, 2]);
    assert!(!sorter.step(&mut values));
    assert_eq!(sorter.special(), (1, 3));
    assert_eq!(sorter.reason(), Comparing);
    assert!(!sorter.step(&mut values));
    assert_eq!(sorter.special(), (2, 4));
    assert_eq!(values, vec![1, 3, 2, 4, 5]);
    assert!(!sorter.step(&mut values));
    assert_eq!(sorter.special(), (0, 2));
    assert_eq!(sorter.reason(), Comparing);
    assert!(!sorter.step(&mut values));
    assert_eq!(sorter.special(), NONE);
    assert!(!sorter.step(&mut values));
    assert_eq!(sorter.special(), (0, 1));
}

#[test]
fn odd_even_trace_on_two_values() {
    let mut values = vec![2, 1];
    let mut sorter = OddEvenSort::new();
    let seen = trace(&mut sorter, &mut values, 100);
    assert_eq!(seen, vec![((0, 1), Switching), (NONE, Comparing), (NONE, Comparing)]);
    assert_eq!(values, vec![1, 2]);
    assert_eq!(sorter.comparisons(), 1);
    assert_eq!(sorter.swaps(), 1);
}

#[test]
fn odd_even_visits_odd_pairs_first() {
    let mut values = vec![4, 3, 2, 1];
    let mut sorter = OddEvenSort::new();
    assert!(!sorter.step(&mut values));
    assert_eq!(sorter.special(), (1, 2));
    assert_eq!(values, vec![4, 2, 3, 1]);
    assert!(!sorter.step(&mut values));
    assert_eq!(sorter.special(), (0, 1));
    assert_eq!(values, vec![2, 4, 3, 1]);
    assert!(!sorter.step(&mut values));
    assert_eq!(sorter.special(), (2, 3));
    assert_eq!(values, vec![2, 4, 1, 3]);
}

#[test]
fn gnome_trace_on_two_values() {
    let mut values = vec![2, 1];
    let mut sorter = GnomeSort::new();
    let seen = trace(&mut sorter, &mut values, 100);
    assert_eq!(
        seen,
        vec![((0, 1), Switching), ((0, 0), Comparing), ((0, 1), Comparing), (NONE, Comparing)]
    );
    assert_eq!(values, vec![1, 2]);
    assert_eq!(sorter.comparisons(), 2);
    assert_eq!(sorter.swaps(), 1);
}

#[test]
fn insertion_trace_on_two_values() {
    let mut values = vec![2, 1];
    let mut sorter = <InsertionSort as Sorter>::new();
    let seen = trace(&mut sorter, &mut values, 100);
    assert_eq!(seen, vec![((0, 1), Switching), ((0, 0), Switching), (NONE, Comparing)]);
    assert_eq!(values, vec![1, 2]);
    assert_eq!(sorter.comparisons(), 1);
    assert_eq!(sorter.swaps(), 1);
}

#[test]
fn insertion_carries_a_value_left_one_place_per_step() {
    let mut values = vec![1, 2, 3, 0];
    let mut sorter = <InsertionSort as Sorter>::new();
    let seen = trace(&mut sorter, &mut values, 100);
    assert_eq!(
        seen,
        vec![
            ((0, 1), Switching),
            ((1, 2), Switching),
            ((2, 3), Switching),
            ((1, 2), Switching),
            ((0, 1), Switching),
            ((0, 0), Switching),
            (NONE, Comparing),
        ]
    );
    assert_eq!(values, vec![0, 1, 2, 3]);
    assert_eq!(sorter.comparisons(), 5);
    assert_eq!(sorter.swaps(), 3);
}

#[test]
fn selection_trace_on_three_values() {
    let mut values = vec![3, 1, 2];
    let mut sorter = <SelectionSort as Sorter>::new();
    let seen = trace(&mut sorter, &mut values, 100);
    assert_eq!(
        seen,
        vec![((0, 1), Switching), ((1, 2), Switching), ((2, 2), Comparing), (NONE, Comparing)]
    );
    assert_eq!(values, vec![1, 2, 3]);
    assert_eq!(sorter.comparisons(), 3);
    assert_eq!(sorter.swaps(), 2);
}

#[test]
fn selection_takes_the_first_of_equal_minima() {
    let mut values = vec![5, 1, 1];
    let mut sorter = <SelectionSort as Sorter>::new();
    assert!(!sorter.step(&mut values));
    assert_eq!(sorter.special(), (0, 1));
    assert_eq!(values, vec![1, 5, 1]);
}

#[test]
fn pancake_trace_on_three_values() {
    let mut values = vec![3, 1, 2];
    let mut sorter = PancakeSort::new();
    let seen = trace(&mut sorter, &mut values, 100);
    assert_eq!(seen, vec![((0, 2), Switching), ((0, 1), Switching), (NONE, Comparing)]);
    assert_eq!(values, vec![1, 2, 3]);
    assert_eq!(sorter.comparisons(), 3);
    assert_eq!(sorter.swaps(), 2);
}

#[test]
fn pancake_flips_twice_for_a_largest_value_in_the_middle() {
    let mut values = vec![1, 4, 2, 3];
    let mut sorter = PancakeSort::new();
    assert!(!sorter.step(&mut values));
    assert_eq!(values, vec![3, 2, 1, 4]);
    assert_eq!(sorter.special(), (1, 3));
    assert_eq!(sorter.swaps(), 2);
    assert_eq!(sorter.comparisons(), 3);
}

#[test]
fn pancake_find_max_takes_the_last_of_equal_maxima() {
    assert_eq!(PancakeSort::find_max(&vec![], 0), 0);
    assert_eq!(PancakeSort::find_max(&vec![7], 1), 0);
    assert_eq!(PancakeSort::find_max(&vec![1, 9, 3, 9, 2], 5), 3);
    assert_eq!(PancakeSort::find_max(&vec![1, 9, 3, 9, 2], 3), 1);
    assert_eq!(PancakeSort::find_max(&vec![4, 4, 4], 3), 2);
    assert_eq!(PancakeSort::find_max(&vec![4, 4, 4], 0), 0);
}

#[test]
fn pancake_flip_reverses_a_prefix() {
    let mut values = vec![1, 2, 3, 4, 5];
    PancakeSort::flip(&mut values, 0);
    assert_eq!(values, vec![1, 2, 3, 4, 5]);
    PancakeSort::flip(&mut values, 2);
    assert_eq!(values, vec![3, 2, 1, 4, 5]);
    PancakeSort::flip(&mut values, 3);
    assert_eq!(values, vec![4, 1, 2, 3, 5]);
    PancakeSort::flip(&mut values, 4);
    assert_eq!(values, vec![5, 3, 2, 1, 4]);
}

#[test]
fn quick_trace_on_three_values() {
    let mut values = vec![3, 1, 2];
    let mut sorter = <QuickSort as Sorter>::new();
    let seen = trace(&mut sorter, &mut values, 100);
    assert_eq!(seen, vec![(NONE, Switching)]);
    assert_eq!(values, vec![1, 2, 3]);
    assert_eq!(sorter.comparisons(), 2);
    assert_eq!(sorter.swaps(), 1);
}

#[test]
fn quick_visits_the_left_part_first() {
    let mut values = vec![2, 1, 6, 5, 9, 8, 4];
    let mut sorter = <QuickSort as Sorter>::new();
    let seen = trace(&mut sorter, &mut values, 100);
    assert_eq!(
        seen,
        vec![((0, 6), Switching), ((0, 1), Switching), ((3, 6), Switching), (NONE, Switching)]
    );
    assert_eq!(values, vec![1, 2, 4, 5, 6, 8, 9]);
    assert_eq!(sorter.swaps(), 4);
    assert_eq!(sorter.comparisons(), 6 + 1 + 3 + 1);
}

#[test]
fn quick_partition_places_the_pivot() {
    let mut sorter = <QuickSort as Sorter>::new();
    let mut values = vec![7, 2, 9, 4, 1, 5];
    let pivot = sorter.partition(&mut values, 0, 5);
    assert_eq!(pivot, 3);
    assert_eq!(values, vec![2, 4, 1, 5, 9, 7]);
    assert_eq!(sorter.swaps(), 1);
    assert_eq!(sorter.comparisons(), 5);
    assert_eq!(sorter.special(), (0, 5));
    assert_eq!(sorter.reason(), Switching);
    assert!(!sorter.is_finished());
    let mut part = vec![0, 8, 3, 3, 9];
    let pivot = sorter.partition(&mut part, 1, 3);
    assert_eq!(pivot, 2);
    assert_eq!(part, vec![0, 3, 3, 8, 9]);
    assert_eq!(sorter.swaps(), 2);
    assert_eq!(sorter.comparisons(), 7);
}

#[test]
fn merge_trace_on_two_values() {
    let mut values = vec![2, 1];
    let mut sorter = <MergeSort as Sorter>::new();
    let seen = trace(&mut sorter, &mut values, 100);
    assert_eq!(
        seen,
        vec![((0, 1), Comparing), ((0, 0), Comparing), ((1, 1), Comparing), (NONE, Switching)]
    );
    assert_eq!(values, vec![1, 2]);
    assert_eq!(sorter.comparisons(), 1);
    assert_eq!(sorter.swaps(), 1);
}

#[test]
fn merge_visits_ranges_left_to_right_depth_first() {
    let mut values = vec![4, 3, 2, 1];
    let mut sorter = <MergeSort as Sorter>::new();
    let seen = trace(&mut sorter, &mut values, 100);
    assert_eq!(
        seen,
        vec![
            ((0, 3), Comparing),
            ((0, 1), Comparing),
            ((0, 0), Comparing),
            ((1, 1), Comparing),
            ((0, 1), Switching),
            ((2, 3), Comparing),
            ((2, 2), Comparing),
            ((3, 3), Comparing),
            ((2, 3), Switching),
            (NONE, Switching),
        ]
    );
    assert_eq!(values, vec![1, 2, 3, 4]);
    assert_eq!(sorter.swaps(), 3);
    assert_eq!(sorter.comparisons(), 1 + 1 + 2);
}

#[test]
fn merge_is_stable_in_what_it_shows() {
    let mut values = vec![1, 3, 5, 2, 4, 6];
    let mut sorter = <MergeSort as Sorter>::new();
    let mut before_last = values.clone();
    loop {
        let snapshot = values.clone();
        if sorter.step(&mut values) {
            before_last = snapshot;
            break;
        }
    }
    assert_eq!(before_last, vec![1, 3, 5, 2, 4, 6]);
    assert_eq!(values, vec![1, 2, 3, 4, 5, 6]);
}

#[test]
fn heap_trace_on_three_values() {
    let mut values = vec![1, 3, 2];
    let mut sorter = <HeapSort as Sorter>::new();
    let mut seen = Vec::new();
    let mut states = Vec::new();
    loop {
        let done = sorter.step(&mut values);
        seen.push((sorter.special(), sorter.reason()));
        states.push(values.clone());
        if done {
            break;
        }
    }
    assert_eq!(
        seen,
        vec![
            ((0, 1), Switching),
            (NONE, Comparing),
            ((0, 2), Comparing),
            ((0, 2), Switching),
            ((0, 1), Comparing),
            ((0, 1), Switching),
            (NONE, Comparing),
            (NONE, Comparing),
        ]
    );
    assert_eq!(states[0], vec![3, 1, 2]);
    assert_eq!(states[3], vec![2, 1, 3]);
    assert_eq!(states[5], vec![1, 2, 3]);
    assert_eq!(sorter.comparisons(), 5);
    assert_eq!(sorter.swaps(), 3);
}

#[test]
fn counting_trace_on_three_values() {
    let mut values = vec![2, 0, 2];
    let mut sorter = <CountingSort as Sorter>::new();
    let mut seen = Vec::new();
    let mut states = Vec::new();
    loop {
        let done = sorter.step(&mut values);
        seen.push((sorter.special(), sorter.reason()));
        states.push(values.clone());
        if done {
            break;
        }
    }
    assert_eq!(
        seen,
        vec![
            (NONE, Comparing),
            ((0, 0), Comparing),
            ((1, 1), Comparing),
            ((2, 2), Comparing),
            (NONE, Comparing),
            ((0, 0), Switching),
            (NONE, Comparing),
            (NONE, Comparing),
            ((1, 1), Switching),
            ((2, 2), Switching),
            (NONE, Comparing),
            (NONE, Comparing),
        ]
    );
    assert_eq!(states[4], vec![2, 0, 2]);
    assert_eq!(states[5], vec![0, 0, 2]);
    assert_eq!(states[8], vec![0, 2, 2]);
    assert_eq!(states[11], vec![0, 2, 2]);
    assert_eq!(sorter.comparisons(), 3);
    assert_eq!(sorter.swaps(), 3);
}

#[test]
fn counting_keeps_the_count_of_the_largest_value_apart() {
    let mut values = vec![0, 0, 0];
    let mut sorter = <CountingSort as Sorter>::new();
    let seen = trace(&mut sorter, &mut values, 100);
    assert_eq!(seen.len(), 1 + 3 + 1 + 3 + 1 + 1);
    assert_eq!(values, vec![0, 0, 0]);
    let mut values = vec![1, 0, 1, 1];
    let mut sorter = <CountingSort as Sorter>::new();
    trace(&mut sorter, &mut values, 100);
    assert_eq!(values, vec![0, 1, 1, 1]);
    assert_eq!(sorter.swaps(), 4);
}

#[test]
fn quick_partition_on_two_values_counts_one_swap() {
    let mut sorter = <QuickSort as Sorter>::new();
    let mut values = vec![3, 1];
    assert_eq!(sorter.partition(&mut values, 0, 1), 0);
    assert_eq!(values, vec![1, 3]);
    assert_eq!(sorter.swaps(), 1);
    assert_eq!(sorter.comparisons(), 1);
}

#[test]
fn quick_partition_of_one_position_leaves_it() {
    let mut sorter = <QuickSort as Sorter>::new();
    let mut values = vec![4, 9, 2];
    assert_eq!(sorter.partition(&mut values, 1, 1), 1);
    assert_eq!(values, vec![4, 9, 2]);
    assert_eq!(sorter.swaps(), 1);
    assert_eq!(sorter.comparisons(), 0);
    assert_eq!(sorter.special(), (1, 1));
}

#[test]
fn heap_keeps_the_root_of_a_complete_sift_until_the_step_moves_on() {
    let mut values = vec![3, 1, 2];
    let mut sorter = <HeapSort as Sorter>::new();
    assert!(!sorter.step(&mut values));
    assert_eq!(values, vec![3, 1, 2]);
    assert_eq!(sorter.special(), (0, 2));
    assert_eq!(sorter.reason(), Comparing);
    assert_eq!(sorter.comparisons(), 2);
    assert_eq!(sorter.swaps(), 0);
    assert!(!sorter.step(&mut values));
    assert_eq!(values, vec![2, 1, 3]);
    assert_eq!(sorter.special(), (0, 2));
    assert_eq!(sorter.reason(), Switching);
    assert_eq!(sorter.swaps(), 1);
}
