//! What the buttons of the display do to a session.

use super::{reset_of, stepped, visualizer_inv, Visualizer, VisualizerModel};
use crate::algorithms::any_sorter::AnySorter;
use crate::algorithms::Sorter;
use crate::random::gen_random_vector;
use crate::types::State;
use crate::ui::constants::{CEIL, FLOOR, VECTOR_SIZE};
use vstd::prelude::*;

verus! {

/// The handlers of the buttons "Step", "Reset" and "Shuffle".
pub struct ButtonHandler;

impl ButtonHandler {
    /// Unless the session is finished, takes one step of its algorithm.
    /// When that step completes the sort, and when the session was
    /// finished, the session is made ready again.
    pub fn handle_step(app: &mut Visualizer)
        requires
            visualizer_inv(old(app)@),
        ensures
            visualizer_inv(final(app)@),
            stepped(old(app)@, final(app)@),
    {
        let ghost before = app@;
        let mut done = false;
        if app.state != State::Finished {
            proof {
                AnySorter::lemma_inv(app.sorter@, app.numbers@);
            }
            let ghost m = app.sorter@;
            let ghost s = app.numbers@;
            done = app.sorter.step(&mut app.numbers);
            proof {
                AnySorter::lemma_step(m, s, app.sorter@, app.numbers@);
            }
            if done {
                app.state = State::Finished;
            }
        }
        if app.state == State::Finished {
            app.reset();
        }
    }

    /// Makes the session ready again and gives it back the sequence that
    /// it began with.
    pub fn handle_reset(app: &mut Visualizer)
        requires
            visualizer_inv(old(app)@),
        ensures
            visualizer_inv(final(app)@),
            final(app)@ == (VisualizerModel {
                numbers: old(app)@.original_numbers,
                ..reset_of(old(app)@)
            }),
    {
        app.reset();
        let numbers = app.original_numbers.clone();
        assert(numbers@ =~= app.original_numbers@);
        app.install(numbers);
    }

    /// Makes the session ready again with a new random sequence, which it
    /// also keeps as the one it began with.
    pub fn handle_shuffle(app: &mut Visualizer)
        requires
            visualizer_inv(old(app)@),
        ensures
            visualizer_inv(final(app)@),
            final(app)@.numbers.len() == VECTOR_SIZE,
            forall|i: int|
                0 <= i < VECTOR_SIZE ==> FLOOR <= #[trigger] final(app)@.numbers[i] < CEIL,
            final(app)@ == (VisualizerModel {
                numbers: final(app)@.numbers,
                original_numbers: final(app)@.numbers,
                ..reset_of(old(app)@)
            }),
    {
        app.reset();
        let numbers = gen_random_vector(FLOOR, CEIL, VECTOR_SIZE);
        let original = numbers.clone();
        assert(original@ =~= numbers@);
        app.install(numbers);
        app.original_numbers = original;
    }
}

} // verus!
