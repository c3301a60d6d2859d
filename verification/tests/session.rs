use sorting_visualizer::algorithms::bubble_sort::BubbleSort;
use sorting_visualizer::algorithms::heap_sort::HeapSort;
use sorting_visualizer::algorithms::runs::run_to_completion;
use sorting_visualizer::algorithms::{Reasons, Sorter, NO_INDEX};
use sorting_visualizer::random::gen_random_vector;
use sorting_visualizer::types::{Algorithms, State};
use sorting_visualizer::ui::buttons::ButtonHandler;
use sorting_visualizer::ui::constants::{Rgb, Theme, CEIL, FLOOR, VECTOR_SIZE};
use sorting_visualizer::ui::Visualizer;

fn rgb(r: u8, g: u8, b: u8) -> Rgb {
    Rgb { r, g, b }
}

#[test]
fn theme_background_colors() {
    assert_eq!(Theme::Dark.background_color(), rgb(0, 0, 0));
    assert_eq!(Theme::Light.background_color(), rgb(255, 255, 255));
    assert_eq!(Theme::Summer.background_color(), rgb(255, 165, 0));
    assert_eq!(Theme::Autumn.background_color(), rgb(139, 69, 19));
    assert_eq!(Theme::Winter.background_color(), rgb(173, 216, 230));
    assert_eq!(Theme::Spring.background_color(), rgb(0, 209, 35));
}

#[test]
fn theme_text_colors() {
    assert_eq!(Theme::Dark.text_color(), rgb(255, 255, 255));
    for theme in [Theme::Light, Theme::Summer, Theme::Autumn, Theme::Winter, Theme::Spring] {
        assert_eq!(theme.text_color(), rgb(0, 0, 0));
    }
}

#[test]
fn theme_bar_colors() {
    assert_eq!(Theme::Dark.bar_color(), rgb(160, 160, 160));
    assert_eq!(Theme::Light.bar_color(), rgb(255, 215, 0));
    assert_eq!(Theme::Winter.bar_color(), rgb(0, 0, 139));
    assert_eq!(Theme::Spring.bar_color(), rgb(0, 100, 0));
    assert_eq!(Theme::Summer.bar_color(), rgb(255, 0, 0));
    assert_eq!(Theme::Autumn.bar_color(), rgb(0, 0, 0));
}

#[test]
fn random_vector_has_the_length_and_the_range_asked_for() {
    let values = gen_random_vector(FLOOR, CEIL, VECTOR_SIZE);
    assert_eq!(values.len(), 100);
    assert!(values.iter().all(|&v| (1..21).contains(&v)));
    assert_eq!(gen_random_vector(5, 6, 10), vec![5; 10]);
    assert_eq!(gen_random_vector(0, 9, 0), Vec::<usize>::new());
}

#[test]
fn random_vector_varies() {
    let values = gen_random_vector(10, 1_000_010, 200);
    assert!(values.iter().all(|&v| (10..1_000_010).contains(&v)));
    assert!(values.iter().any(|&v| v != 10));
    assert!(values.iter().any(|&v| v != values[0]));
}

#[test]
fn a_new_session_is_ready() {
    let app = Visualizer::new(vec![3, 1, 2]);
    assert_eq!(app.state(), State::Start);
    assert_eq!(app.selected_algorithm(), Algorithms::Bubble);
    assert_eq!(app.selected_theme(), Theme::Dark);
    assert_eq!(app.numbers(), &vec![3, 1, 2]);
    assert_eq!(app.original_numbers(), &vec![3, 1, 2]);
    assert_eq!(app.sorter().algorithm(), Algorithms::Bubble);
    assert!(!app.sorter().is_finished());
}

#[test]
fn a_random_session_has_a_hundred_small_values() {
    let app = Visualizer::random();
    assert_eq!(app.numbers().len(), 100);
    assert!(app.numbers().iter().all(|&v| (1..21).contains(&v)));
    assert_eq!(app.numbers(), app.original_numbers());
    assert_eq!(app.state(), State::Start);
}

#[test]
fn step_button_takes_one_step_and_readies_a_completed_session() {
    let mut app = Visualizer::new(vec![2, 1]);
    ButtonHandler::handle_step(&mut app);
    assert_eq!(app.numbers(), &vec![1, 2]);
    assert_eq!(app.state(), State::Start);
    assert_eq!(app.sorter().special(), (0, 1));
    assert_eq!(app.sorter().reason(), Reasons::Switching);
    assert_eq!(app.sorter().swaps(), 1);
    ButtonHandler::handle_step(&mut app);
    assert_eq!(app.sorter().special(), (NO_INDEX, NO_INDEX));
    assert_eq!(app.sorter().comparisons(), 1);
    ButtonHandler::handle_step(&mut app);
    assert_eq!(app.numbers(), &vec![1, 2]);
    assert_eq!(app.state(), State::Start);
    assert!(!app.sorter().is_finished());
    assert_eq!(app.sorter().comparisons(), 0);
    assert_eq!(app.sorter().swaps(), 0);
    assert_eq!(app.original_numbers(), &vec![2, 1]);
}

#[test]
fn a_session_runs_only_while_it_is_running() {
    let mut app = Visualizer::new(vec![3, 2, 1]);
    app.handle_running();
    assert_eq!(app.numbers(), &vec![3, 2, 1]);
    app.start();
    assert_eq!(app.state(), State::Running);
    app.handle_running();
    assert_eq!(app.numbers(), &vec![2, 3, 1]);
    assert_eq!(app.state(), State::Running);
    app.stop();
    assert_eq!(app.state(), State::Start);
    app.handle_running();
    assert_eq!(app.numbers(), &vec![2, 3, 1]);
    app.stop();
    assert_eq!(app.state(), State::Start);
}

#[test]
fn a_running_session_stops_when_the_sort_is_complete() {
    let mut app = Visualizer::new(vec![4, 2, 5, 1, 3]);
    app.start();
    let mut frames = 0;
    while app.state() == State::Running {
        app.handle_running();
        frames += 1;
        assert!(frames < 1_000);
    }
    assert_eq!(app.state(), State::Start);
    assert_eq!(app.numbers(), &vec![1, 2, 3, 4, 5]);
    assert_eq!(app.sorter().comparisons(), 0);
}

#[test]
fn reset_button_restores_the_sequence() {
    let mut app = Visualizer::new(vec![3, 2, 1]);
    app.start();
    app.handle_running();
    app.handle_running();
    assert_eq!(app.numbers(), &vec![2, 1, 3]);
    ButtonHandler::handle_reset(&mut app);
    assert_eq!(app.numbers(), &vec![3, 2, 1]);
    assert_eq!(app.original_numbers(), &vec![3, 2, 1]);
    assert_eq!(app.state(), State::Start);
    assert_eq!(app.sorter().comparisons(), 0);
    assert_eq!(app.sorter().special(), (NO_INDEX, NO_INDEX));
}

#[test]
fn shuffle_button_brings_a_new_sequence() {
    let mut app = Visualizer::new(vec![3, 2, 1]);
    app.start();
    app.handle_running();
    ButtonHandler::handle_shuffle(&mut app);
    assert_eq!(app.numbers().len(), 100);
    assert!(app.numbers().iter().all(|&v| (1..21).contains(&v)));
    assert_eq!(app.numbers(), app.original_numbers());
    assert_eq!(app.state(), State::Start);
    assert_eq!(app.sorter().comparisons(), 0);
}

#[test]
fn reset_keeps_the_sequence_as_it_stands() {
    let mut app = Visualizer::new(vec![3, 2, 1]);
    ButtonHandler::handle_step(&mut app);
    app.start();
    app.reset();
    assert_eq!(app.numbers(), &vec![2, 3, 1]);
    assert_eq!(app.state(), State::Start);
    assert_eq!(app.sorter().comparisons(), 0);
}

#[test]
fn choosing_another_algorithm_brings_a_new_machine() {
    let mut app = Visualizer::new(vec![3, 2, 1]);
    ButtonHandler::handle_step(&mut app);
    assert!(!app.handle_algorithm_selection(Algorithms::Bubble));
    assert_eq!(app.sorter().comparisons(), 1);
    assert!(app.handle_algorithm_selection(Algorithms::Counting));
    assert_eq!(app.selected_algorithm(), Algorithms::Counting);
    assert_eq!(app.sorter().algorithm(), Algorithms::Counting);
    assert_eq!(app.sorter().comparisons(), 0);
    assert_eq!(app.numbers(), &vec![2, 3, 1]);
    assert_eq!(app.state(), State::Start);
    for a in Algorithms::all() {
        app.handle_algorithm_selection(a);
        app.switch_algorithm();
        assert_eq!(app.sorter().algorithm(), a);
        app.start();
        let mut frames = 0;
        while app.state() == State::Running {
            app.handle_running();
            frames += 1;
            assert!(frames < 1_000_000);
        }
        assert_eq!(app.numbers(), &vec![1, 2, 3]);
        ButtonHandler::handle_reset(&mut app);
        assert_eq!(app.numbers(), &vec![3, 2, 1]);
    }
}

#[test]
fn choosing_a_theme() {
    let mut app = Visualizer::new(vec![1]);
    app.handle_theme_selection(Theme::Winter);
    assert_eq!(app.selected_theme(), Theme::Winter);
    assert_eq!(app.get_bar_color(0), rgb(0, 0, 139));
}

#[test]
fn new_numbers_are_taken_unless_there_are_none() {
    let mut app = Visualizer::new(vec![3, 2, 1]);
    ButtonHandler::handle_step(&mut app);
    assert!(!app.set_numbers(vec![]));
    assert_eq!(app.numbers(), &vec![2, 3, 1]);
    assert_eq!(app.sorter().comparisons(), 1);
    assert!(app.set_numbers(vec![9, 8, usize::MAX]));
    assert_eq!(app.numbers(), &vec![9, 8, usize::MAX]);
    assert_eq!(app.original_numbers(), &vec![9, 8, usize::MAX]);
    assert_eq!(app.state(), State::Start);
    assert_eq!(app.sorter().comparisons(), 0);
    app.start();
    while app.state() == State::Running {
        app.handle_running();
    }
    assert_eq!(app.numbers(), &vec![8, 9, usize::MAX]);
}

#[test]
fn bars_are_highlighted_by_what_the_last_step_did() {
    let mut app = Visualizer::new(vec![2, 1, 3]);
    assert_eq!(app.get_bar_color(0), rgb(160, 160, 160));
    ButtonHandler::handle_step(&mut app);
    assert_eq!(app.get_bar_color(0), rgb(144, 238, 144));
    assert_eq!(app.get_bar_color(1), rgb(144, 238, 144));
    assert_eq!(app.get_bar_color(2), rgb(160, 160, 160));
    ButtonHandler::handle_step(&mut app);
    assert_eq!(app.get_bar_color(0), rgb(160, 160, 160));
    assert_eq!(app.get_bar_color(1), rgb(255, 255, 224));
    assert_eq!(app.get_bar_color(2), rgb(255, 255, 224));
    ButtonHandler::handle_step(&mut app);
    assert_eq!(app.get_bar_color(1), rgb(160, 160, 160));
    assert_eq!(app.get_bar_color(usize::MAX), rgb(255, 255, 224));
}

#[test]
fn a_machine_can_be_driven_to_completion() {
    let mut values = vec![6, 2, 9, 2, 0, 7];
    let mut sorter = BubbleSort::new();
    run_to_completion(&mut sorter, &mut values);
    assert_eq!(values, vec![0, 2, 2, 6, 7, 9]);
    assert!(sorter.is_finished());
    run_to_completion(&mut sorter, &mut values);
    assert_eq!(values, vec![0, 2, 2, 6, 7, 9]);
    let mut values = vec![6, 2, 9, 2, 0, 7];
    let mut sorter = <HeapSort as Sorter>::new();
    sorter.step(&mut values);
    run_to_completion(&mut sorter, &mut values);
    assert_eq!(values, vec![0, 2, 2, 6, 7, 9]);
}

#[test]
fn the_seed_of_a_session_fixes_its_shuffles() {
    let input: Vec<usize> = (0..12).rev().collect();
    let mut first = Visualizer::new(input.clone());
    first.set_seed(1);
    assert!(first.handle_algorithm_selection(Algorithms::Bogo));
    let mut second = Visualizer::new(input.clone());
    second.set_seed(1);
    second.handle_algorithm_selection(Algorithms::Bogo);
    let mut third = Visualizer::new(input.clone());
    third.set_seed(2);
    third.handle_algorithm_selection(Algorithms::Bogo);
    ButtonHandler::handle_step(&mut first);
    ButtonHandler::handle_step(&mut second);
    ButtonHandler::handle_step(&mut third);
    assert_eq!(first.numbers(), second.numbers());
    assert_ne!(first.numbers(), third.numbers());
    assert_ne!(first.numbers(), &input);
    let mut sorted = first.numbers().clone();
    sorted.sort();
    assert_eq!(sorted, (0..12).collect::<Vec<usize>>());
    assert_eq!(first.numbers().len(), 12);
}

#[test]
fn a_default_session_is_a_random_one() {
    let app = Visualizer::default();
    assert_eq!(app.numbers().len(), 100);
    assert_eq!(app.state(), State::Start);
    assert_eq!(app.selected_algorithm(), Algorithms::Bubble);
}
