//! The failures that the engine reports instead of faulting.

use vstd::prelude::*;

verus! {

/// Why an operation of the engine could not produce its result.
#[derive(Clone, Copy, Debug, PartialEq, Eq, Structural)]
pub enum PuzzleError {
    /// Two grids that must have the same shape differ in their number of
    /// rows or of columns.
    ShapeMismatch,
    /// A hint was asked for a row or column although every line of that
    /// axis already has one.
    ExhaustedLineSpace,
}

} // verus!
