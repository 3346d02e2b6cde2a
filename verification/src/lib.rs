//! A water-sort puzzle engine.
//!
//! Colored units of liquid sit in tubes of four slots each. A move pours
//! from one tube onto another; the puzzle is solved once every tube is
//! either empty or holds four units of a single color.
//!
//! - [`tube`]: one tube, the pour rule, and how much a pour moves.
//! - [`rack`]: the row of tubes, its generation, the pour and the check
//!   for the solved puzzle.
//! - [`moves`]: from the text that a player types to the two tubes of a
//!   move.
//! - [`laws`]: what every rack keeps through every pour, proved.
//!
//! The contracts speak of a tube as the sequence of its colors, bottom
//! first, and of a rack as the sequence of its tubes. Two things are taken
//! on trust from other crates: that a shuffle only reorders, and that a
//! regular expression gives the same verdict on the same text.

pub mod laws;
pub mod moves;
pub mod rack;
mod shuffle;
pub mod tube;
