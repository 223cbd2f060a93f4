//! Constraint tracking for a word-guessing puzzle: the feedback of successive
//! guesses is merged into per-letter, per-position knowledge, and a candidate
//! guess is checked against everything learned so far.

pub mod cells;
pub mod entries;
pub mod game;
pub mod knowledge;
pub mod laws;
pub mod outcome;
pub mod render;

pub use cells::{CellState, FeedbackKind, LetterInfo, LetterState};
pub use cells::{generate_new_vec, word_to_result};
pub use game::WordleGame;
pub use knowledge::Knowledge;
pub use outcome::{CheckError, CheckFailure, Violation};
pub use render::show_vec_present_types;
