//! Spelling correction by bounded edit-distance search over a frequency model.
//!
//! Words are handled as sequences of characters. The edit generator produces
//! every string one deletion, transposition, replacement or insertion away
//! from a word; the correction engine looks for the most frequent known word
//! within two such edits, breaking ties by lexicographic order.
pub mod edits;
pub mod rank;
pub mod model;
pub mod engine;
pub mod normalize;
