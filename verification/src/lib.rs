//! A verified number-guessing session: a bounded interactive state machine
//! that compares parsed guesses against a hidden target.
pub mod basics;
pub mod session;
pub mod text;
