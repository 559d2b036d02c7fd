//! Puzzle generation and validation engine for a grid-based deduction game.
//!
//! A solved grid holds, in every row, the column ranks `1..=cols` in some
//! order. Hints reveal a gapped, strictly ordered part of one row or column,
//! a selection grid is the solved grid with some cells blanked, and the
//! mismatch counter lists every cell in which a selection disagrees with the
//! solved grid.

pub mod count_errors;
pub mod error;
pub mod hints;
pub mod matrix;
pub mod random;
pub mod settings;
pub mod sherlock;
