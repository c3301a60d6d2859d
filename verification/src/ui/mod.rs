//! A sorting session: a sequence, the algorithm chosen for it, and the
//! machine that sorts it step by step as the display asks.

pub mod buttons;
pub mod constants;
pub mod input;

use self::constants::{
    bar_color_of, light_green, light_yellow, Rgb, Theme, CEIL, FLOOR, VECTOR_SIZE,
};
use self::input::{numbers_of, parse_csv, parse_numbers};
use crate::algorithms::any_sorter::{algorithm_of, any_initial, AnyModel, AnySorter};
use crate::algorithms::{Reasons, Sorter};
use crate::random::gen_random_vector;
use crate::types::{Algorithms, State};
use buttons::ButtonHandler;
use vstd::prelude::*;

verus! {

/// A sorting session.
pub struct Visualizer {
    selected_algorithm: Algorithms,
    numbers: Vec<usize>,
    original_numbers: Vec<usize>,
    state: State,
    sorter: AnySorter,
    selected_theme: Theme,
    seed: u64,
}

/// A sorting session as a value: the algorithm and the theme chosen, the
/// sequence as it stands and as it began, the state, the configuration of
/// the machine, and the seed with which the session makes its next machine.
pub struct VisualizerModel {
    pub selected_algorithm: Algorithms,
    pub numbers: Seq<usize>,
    pub original_numbers: Seq<usize>,
    pub state: State,
    pub sorter: AnyModel,
    pub selected_theme: Theme,
    pub seed: u64,
}

impl View for Visualizer {
    type V = VisualizerModel;

    closed spec fn view(&self) -> VisualizerModel {
        VisualizerModel {
            selected_algorithm: self.selected_algorithm,
            numbers: self.numbers@,
            original_numbers: self.original_numbers@,
            state: self.state,
            sorter: self.sorter@,
            selected_theme: self.selected_theme,
            seed: self.seed,
        }
    }
}

/// The sessions that the operations keep to: the machine is one of the
/// chosen algorithm and in a run over the sequence.
pub open spec fn visualizer_inv(v: VisualizerModel) -> bool {
    &&& algorithm_of(v.sorter) == v.selected_algorithm
    &&& AnySorter::inv(v.sorter, v.numbers)
    &&& v.numbers.len() <= usize::MAX
}

/// The session `v` made ready again: in the state `Start`, with its machine
/// as it began.
pub open spec fn reset_of(v: VisualizerModel) -> VisualizerModel {
    VisualizerModel { state: State::Start, sorter: AnySorter::origin(v.sorter), ..v }
}

/// The session `v` with the machine in configuration `m` and the sequence
/// `s` after a step: made ready again if the step completed the sort.
pub open spec fn after_step(v: VisualizerModel, m: AnyModel, s: Seq<usize>) -> VisualizerModel {
    if AnySorter::status(m).finished {
        reset_of(VisualizerModel { numbers: s, sorter: m, ..v })
    } else {
        VisualizerModel { numbers: s, sorter: m, ..v }
    }
}

/// What the button "Step" makes of the session `v`: a finished session is
/// made ready again; any other takes one of the steps that its machine can
/// take.
pub open spec fn stepped(v: VisualizerModel, v2: VisualizerModel) -> bool {
    if v.state == State::Finished {
        v2 == reset_of(v)
    } else {
        exists|m: AnyModel|
            #![trigger AnySorter::step_spec(v.sorter, v.numbers, m, v2.numbers)]
            AnySorter::step_spec(v.sorter, v.numbers, m, v2.numbers) && v2 == after_step(
                v,
                m,
                v2.numbers,
            )
    }
}

impl Default for Visualizer {
    /// A session over a random sequence, as `Visualizer::random` makes it.
    fn default() -> (r: Self)
        ensures
            visualizer_inv(r@),
            r@.selected_algorithm == Algorithms::Bubble,
            r@.selected_theme == Theme::Dark,
            r@.state == State::Start,
            r@.numbers == r@.original_numbers,
            r@.numbers.len() == VECTOR_SIZE,
            forall|i: int| 0 <= i < VECTOR_SIZE ==> FLOOR <= #[trigger] r@.numbers[i] < CEIL,
            r@.sorter == any_initial(Algorithms::Bubble, 0),
            r@.seed == 0,
    {
        Visualizer::random()
    }
}

impl Visualizer {
    /// A session over `numbers` with the bubble sort and the dark theme,
    /// ready to run.
    pub fn new(numbers: Vec<usize>) -> (r: Self)
        ensures
            visualizer_inv(r@),
            r@.selected_algorithm == Algorithms::Bubble,
            r@.selected_theme == Theme::Dark,
            r@.state == State::Start,
            r@.numbers == numbers@,
            r@.original_numbers == numbers@,
            r@.sorter == any_initial(Algorithms::Bubble, 0),
            r@.seed == 0,
    {
        let original = numbers.clone();
        assert(original@ =~= numbers@);
        let sorter = AnySorter::for_algorithm(Algorithms::Bubble);
        proof {
            AnySorter::lemma_initial(sorter@, numbers@);
        }
        Visualizer {
            selected_algorithm: Algorithms::Bubble,
            numbers,
            original_numbers: original,
            state: State::Start,
            sorter,
            selected_theme: Theme::Dark,
            seed: 0,
        }
    }

    /// A session over a random sequence of `VECTOR_SIZE` values from
    /// `FLOOR` up to, but not including, `CEIL`.
    pub fn random() -> (r: Self)
        ensures
            visualizer_inv(r@),
            r@.selected_algorithm == Algorithms::Bubble,
            r@.selected_theme == Theme::Dark,
            r@.state == State::Start,
            r@.numbers == r@.original_numbers,
            r@.numbers.len() == VECTOR_SIZE,
            forall|i: int| 0 <= i < VECTOR_SIZE ==> FLOOR <= #[trigger] r@.numbers[i] < CEIL,
            r@.sorter == any_initial(Algorithms::Bubble, 0),
            r@.seed == 0,
    {
        let numbers = gen_random_vector(FLOOR, CEIL, VECTOR_SIZE);
        Visualizer::new(numbers)
    }

    /// The sequence as it stands.
    pub fn numbers(&self) -> (r: &Vec<usize>)
        ensures
            r@ == self@.numbers,
    {
        &self.numbers
    }

    /// The sequence as the session began with it.
    pub fn original_numbers(&self) -> (r: &Vec<usize>)
        ensures
            r@ == self@.original_numbers,
    {
        &self.original_numbers
    }

    /// The state of the session.
    pub fn state(&self) -> (r: State)
        ensures
            r == self@.state,
    {
        self.state
    }

    /// The algorithm chosen.
    pub fn selected_algorithm(&self) -> (r: Algorithms)
        ensures
            r == self@.selected_algorithm,
    {
        self.selected_algorithm
    }

    /// The theme chosen.
    pub fn selected_theme(&self) -> (r: Theme)
        ensures
            r == self@.selected_theme,
    {
        self.selected_theme
    }

    /// The machine of the session.
    pub fn sorter(&self) -> (r: &AnySorter)
        ensures
            r@ == self@.sorter,
    {
        &self.sorter
    }

    /// Puts `numbers` in the place of the sequence.
    fn install(&mut self, numbers: Vec<usize>)
        requires
            visualizer_inv(old(self)@),
            old(self)@.sorter == AnySorter::origin(old(self)@.sorter),
        ensures
            visualizer_inv(final(self)@),
            final(self)@ == (VisualizerModel { numbers: numbers@, ..old(self)@ }),
    {
        proof {
            vstd::std_specs::vec::axiom_spec_len(&numbers);
            AnySorter::lemma_initial(self.sorter@, numbers@);
        }
        self.numbers = numbers;
    }

    /// Takes `new_numbers` as the sequence to sort, if it holds a value: the
    /// session is then ready to run over it. Says whether it did.
    pub fn set_numbers(&mut self, new_numbers: Vec<usize>) -> (accepted: bool)
        requires
            visualizer_inv(old(self)@),
        ensures
            visualizer_inv(final(self)@),
            accepted == (new_numbers@.len() > 0),
            accepted ==> final(self)@ == (VisualizerModel {
                numbers: new_numbers@,
                original_numbers: new_numbers@,
                ..reset_of(old(self)@)
            }),
            !accepted ==> final(self)@ == old(self)@,
    {
        if new_numbers.len() == 0 {
            return false;
        }
        let original = new_numbers.clone();
        assert(original@ =~= new_numbers@);
        self.reset();
        self.install(new_numbers);
        self.original_numbers = original;
        true
    }

    /// Takes the numbers that the text of the input field holds between
    /// its commas as the sequence to sort, as `set_numbers` does.
    pub fn process_user_input(&mut self, user_input: &str) -> (accepted: bool)
        requires
            visualizer_inv(old(self)@),
        ensures
            visualizer_inv(final(self)@),
            accepted == (numbers_of(user_input@, false).len() > 0),
            accepted ==> final(self)@ == (VisualizerModel {
                numbers: numbers_of(user_input@, false),
                original_numbers: numbers_of(user_input@, false),
                ..reset_of(old(self)@)
            }),
            !accepted ==> final(self)@ == old(self)@,
    {
        let new_numbers = parse_numbers(user_input);
        self.set_numbers(new_numbers)
    }

    /// Takes the numbers that the contents of a text file hold between
    /// their commas as the sequence to sort, as `set_numbers` does.
    pub fn load_numbers_from_file(&mut self, contents: &str) -> (accepted: bool)
        requires
            visualizer_inv(old(self)@),
        ensures
            visualizer_inv(final(self)@),
            accepted == (numbers_of(contents@, false).len() > 0),
            accepted ==> final(self)@ == (VisualizerModel {
                numbers: numbers_of(contents@, false),
                original_numbers: numbers_of(contents@, false),
                ..reset_of(old(self)@)
            }),
            !accepted ==> final(self)@ == old(self)@,
    {
        let new_numbers = parse_numbers(contents);
        self.set_numbers(new_numbers)
    }

    /// Takes the numbers that the contents of a file of comma-separated
    /// values hold, line by line, as the sequence to sort, as
    /// `set_numbers` does.
    pub fn load_numbers_from_csv(&mut self, contents: &str) -> (accepted: bool)
        requires
            visualizer_inv(old(self)@),
        ensures
            visualizer_inv(final(self)@),
            accepted == (numbers_of(contents@, true).len() > 0),
            accepted ==> final(self)@ == (VisualizerModel {
                numbers: numbers_of(contents@, true),
                original_numbers: numbers_of(contents@, true),
                ..reset_of(old(self)@)
            }),
            !accepted ==> final(self)@ == old(self)@,
    {
        let new_numbers = parse_csv(contents);
        self.set_numbers(new_numbers)
    }

    /// Makes the session ready again: the state is `Start` and the machine
    /// is as it began. The sequence stays as it stands.
    pub fn reset(&mut self)
        requires
            visualizer_inv(old(self)@),
        ensures
            visualizer_inv(final(self)@),
            final(self)@ == reset_of(old(self)@),
    {
        proof {
            AnySorter::lemma_origin(self.sorter@);
            AnySorter::lemma_initial(AnySorter::origin(self.sorter@), self.numbers@);
        }
        self.state = State::Start;
        self.sorter.reset_state();
    }

    /// Puts a machine of the chosen algorithm that has not run yet in the
    /// place of the machine, and makes the session ready again.
    pub fn switch_algorithm(&mut self)
        requires
            visualizer_inv(old(self)@),
        ensures
            visualizer_inv(final(self)@),
            final(self)@ == (VisualizerModel {
                state: State::Start,
                sorter: any_initial(old(self)@.selected_algorithm, old(self)@.seed),
                ..old(self)@
            }),
    {
        self.sorter = AnySorter::for_algorithm_seeded(self.selected_algorithm, self.seed);
        proof {
            AnySorter::lemma_initial(self.sorter@, self.numbers@);
        }
        self.reset();
        proof {
            AnySorter::lemma_origin(self.sorter@);
        }
    }

    /// Chooses the algorithm `algorithm`. If it was not chosen already, the
    /// session gets a machine for it and is made ready again. Says whether
    /// the choice changed.
    pub fn handle_algorithm_selection(&mut self, algorithm: Algorithms) -> (changed: bool)
        requires
            visualizer_inv(old(self)@),
        ensures
            visualizer_inv(final(self)@),
            changed == (algorithm != old(self)@.selected_algorithm),
            !changed ==> final(self)@ == old(self)@,
            changed ==> final(self)@ == (VisualizerModel {
                selected_algorithm: algorithm,
                state: State::Start,
                sorter: any_initial(algorithm, old(self)@.seed),
                ..old(self)@
            }),
    {
        let previous = self.selected_algorithm;
        if previous != algorithm {
            self.selected_algorithm = algorithm;
            self.sorter = AnySorter::for_algorithm_seeded(algorithm, self.seed);
            proof {
                AnySorter::lemma_initial(self.sorter@, self.numbers@);
            }
            self.reset();
            proof {
                AnySorter::lemma_origin(self.sorter@);
            }
            true
        } else {
            false
        }
    }

    /// Takes `seed` as the seed with which the session makes its next
    /// machine. The machine that it has stays as it is.
    pub fn set_seed(&mut self, seed: u64)
        ensures
            final(self)@ == (VisualizerModel { seed, ..old(self)@ }),
    {
        self.seed = seed;
    }

    /// Chooses the theme `theme`.
    pub fn handle_theme_selection(&mut self, theme: Theme)
        ensures
            final(self)@ == (VisualizerModel { selected_theme: theme, ..old(self)@ }),
    {
        self.selected_theme = theme;
    }

    /// The button "Start": the session runs.
    pub fn start(&mut self)
        ensures
            final(self)@ == (VisualizerModel { state: State::Running, ..old(self)@ }),
    {
        self.state = State::Running;
    }

    /// The button "Stop": a running session is ready again, where it stands.
    pub fn stop(&mut self)
        ensures
            final(self)@ == (VisualizerModel {
                state: if old(self)@.state == State::Running {
                    State::Start
                } else {
                    old(self)@.state
                },
                ..old(self)@
            }),
    {
        if self.state == State::Running {
            self.state = State::Start;
        }
    }

    /// What a running session does between two frames of the display: it
    /// takes a step as the button "Step" does. Any other session stays as
    /// it is.
    pub fn handle_running(&mut self)
        requires
            visualizer_inv(old(self)@),
        ensures
            visualizer_inv(final(self)@),
            old(self)@.state == State::Running ==> stepped(old(self)@, final(self)@),
            old(self)@.state != State::Running ==> final(self)@ == old(self)@,
    {
        if self.state == State::Running {
            ButtonHandler::handle_step(self);
            proof {
                AnySorter::lemma_origin(old(self)@.sorter);
            }
            if self.sorter.is_finished() {
                self.state = State::Finished;
            }
        }
    }

    /// The colour of the bar at `index`: while the session is not finished,
    /// a bar at a highlighted position is light yellow after a step that
    /// compared and light green after one that switched; every other bar
    /// has the colour of the theme.
    pub fn get_bar_color(&self, index: usize) -> (c: Rgb)
        ensures
            c == if self@.state != State::Finished && (index == AnySorter::status(
                self@.sorter,
            ).special.0 || index == AnySorter::status(self@.sorter).special.1) {
                if AnySorter::status(self@.sorter).reason == Reasons::Comparing {
                    light_yellow()
                } else {
                    light_green()
                }
            } else {
                bar_color_of(self@.selected_theme)
            },
    {
        if self.state != State::Finished && (index == self.sorter.special().0 || index
            == self.sorter.special().1) {
            match self.sorter.reason() {
                Reasons::Comparing => Rgb { r: 255, g: 255, b: 224 },
                Reasons::Switching => Rgb { r: 144, g: 238, b: 144 },
            }
        } else {
            self.selected_theme.bar_color()
        }
    }
}

} // verus!
