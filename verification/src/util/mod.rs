//! Helpers of the display.

pub use crate::random::gen_random_vector;
