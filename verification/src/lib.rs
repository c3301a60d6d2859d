//! Sorting algorithms as resumable state machines.
//!
//! Every algorithm advances by one small unit of work per call, so that a
//! caller can show the sequence between any two units. The contracts relate
//! each machine to a mathematical model of its configuration and prove that
//! a run ends with the input's values in non-decreasing order.

pub mod algorithms;
pub mod random;
pub mod types;
pub mod ui;
pub mod util;
