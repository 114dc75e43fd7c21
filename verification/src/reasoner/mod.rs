//! Reasoning before a change: what it touches, and whether a plan holds.

pub mod recurrent;
pub mod scratchpad;
pub mod simulator;
