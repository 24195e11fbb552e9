//! A secret-code guessing puzzle: a hidden sequence of colored pegs, guesses
//! scored by the number of well-placed pegs, and an automated solver that
//! prunes the space of candidate codes from that feedback.

pub mod color;
pub mod mastermind;
pub mod solver;
