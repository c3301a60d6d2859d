use sorting_visualizer::algorithms::any_sorter::AnySorter;
use sorting_visualizer::algorithms::bogo_sort::BogoSort;
use sorting_visualizer::algorithms::{Reasons, Sorter, NO_INDEX};
use sorting_visualizer::types::{Algorithms, State};

#[test]
fn all_algorithms_are_listed_once() {
    let all = Algorithms::all();
    assert_eq!(all.len(), 14);
    for (i, a) in all.iter().enumerate() {
        for b in &all[i + 1..] {
            assert_ne!(a, b);
        }
    }
    assert_eq!(all[0], Algorithms::Bubble);
    assert_eq!(all[13], Algorithms::OddEven);
}

#[test]
fn a_machine_runs_the_algorithm_it_was_made_for() {
    for a in Algorithms::all() {
        let sorter = AnySorter::for_algorithm(a);
        assert_eq!(sorter.algorithm(), a);
        assert!(!sorter.is_finished());
        assert_eq!(sorter.special(), (NO_INDEX, NO_INDEX));
        assert_eq!(sorter.reason(), Reasons::Comparing);
        assert_eq!(sorter.comparisons(), 0);
        assert_eq!(sorter.swaps(), 0);
    }
}

#[test]
fn every_algorithm_sorts_through_the_common_type() {
    for a in Algorithms::all() {
        let mut values = vec![3, 0, 4, 1, 4, 2];
        let mut sorter = AnySorter::for_algorithm(a);
        let mut steps = 0;
        while !sorter.step(&mut values) {
            steps += 1;
            assert!(steps < 1_000_000);
        }
        assert_eq!(values, vec![0, 1, 2, 3, 4, 4]);
        assert!(sorter.is_finished());
        sorter.reset_state();
        assert_eq!(sorter.algorithm(), a);
        assert!(!sorter.is_finished());
        assert_eq!(sorter.comparisons(), 0);
    }
}

#[test]
fn the_default_machine_is_a_bubble_sort() {
    let sorter = <AnySorter as Sorter>::new();
    assert_eq!(sorter.algorithm(), Algorithms::Bubble);
}

#[test]
fn a_seeded_bogo_sort_fits_the_common_type() {
    let mut sorter = AnySorter::Bogo(BogoSort::with_seed(11));
    let mut values = vec![2, 3, 1];
    let mut steps = 0;
    while !sorter.step(&mut values) {
        steps += 1;
        assert!(steps < 1_000_000);
    }
    assert_eq!(values, vec![1, 2, 3]);
}

#[test]
fn states_differ() {
    assert_ne!(State::Start, State::Running);
    assert_ne!(State::Running, State::Finished);
    assert_eq!(State::Finished, State::Finished);
}

#[test]
fn a_seeded_machine_is_of_the_algorithm_asked_for() {
    for a in Algorithms::all() {
        let sorter = AnySorter::for_algorithm_seeded(a, 99);
        assert_eq!(sorter.algorithm(), a);
        assert!(!sorter.is_finished());
        assert_eq!(sorter.swaps(), 0);
    }
    let mut values: Vec<usize> = (0..10).rev().collect();
    let mut again = values.clone();
    let mut other = values.clone();
    AnySorter::for_algorithm_seeded(Algorithms::Bogo, 5).step(&mut values);
    AnySorter::for_algorithm_seeded(Algorithms::Bogo, 5).step(&mut again);
    AnySorter::for_algorithm_seeded(Algorithms::Bogo, 6).step(&mut other);
    assert_eq!(values, again);
    assert_ne!(values, other);
}
