//! The names of the algorithms and the states of a sorting session.

use vstd::prelude::*;

verus! {

/// The sorting algorithms that a session can run.
#[derive(PartialEq, Eq, Structural, Debug, Clone, Copy)]
pub enum Algorithms {
    Bubble,
    Selection,
    Insertion,
    Merge,
    Bogo,
    Quick,
    Heap,
    Counting,
    Cocktail,
    Gnome,
    Pancake,
    Shell,
    Comb,
    OddEven,
}

/// Where a sorting session stands: ready to run, running on its own, or
/// done.
#[derive(PartialEq, Eq, Structural, Debug, Clone, Copy)]
pub enum State {
    Start,
    Running,
    Finished,
}

/// The height of a bar for each unit of the value it shows.
pub const BAR_HEIGHT_MULTIPLIER: usize = 28;

/// The pause between two steps of a running session, in milliseconds.
pub const STEP_DELAY_MILLIS: u64 = 10;

impl Algorithms {
    /// All algorithms, in the order in which a menu lists them.
    pub fn all() -> (r: Vec<Algorithms>)
        ensures
            r@ == seq![
                Algorithms::Bubble,
                Algorithms::Selection,
                Algorithms::Insertion,
                Algorithms::Merge,
                Algorithms::Bogo,
                Algorithms::Quick,
                Algorithms::Heap,
                Algorithms::Counting,
                Algorithms::Cocktail,
                Algorithms::Gnome,
                Algorithms::Pancake,
                Algorithms::Shell,
                Algorithms::Comb,
                Algorithms::OddEven,
            ],
    {
        vec![
            Algorithms::Bubble,
            Algorithms::Selection,
            Algorithms::Insertion,
            Algorithms::Merge,
            Algorithms::Bogo,
            Algorithms::Quick,
            Algorithms::Heap,
            Algorithms::Counting,
            Algorithms::Cocktail,
            Algorithms::Gnome,
            Algorithms::Pancake,
            Algorithms::Shell,
            Algorithms::Comb,
            Algorithms::OddEven,
        ]
    }
}

} // verus!
