//! The configuration of a puzzle, as handed over by whoever loaded it.

use crate::hints::axes_hintable;
use crate::hints::hints_fit;
use crate::hints::MAX_LINE_SPAN;
use crate::hints::MIN_LINE_SPAN;
use crate::hints::TOTAL_SLOTS;
use vstd::prelude::*;

verus! {

/// The configuration of one puzzle.
#[derive(Debug, PartialEq, Eq)]
pub struct Settings {
    /// The name of the visual theme; the engine does not read it.
    pub theme: String,
    /// The number of rows of the grid.
    pub row_tile_count: i32,
    /// The number of columns of the grid.
    pub col_tile_count: i32,
    /// How many rows get a hint.
    pub row_hint_count: i32,
    /// How many columns get a hint.
    pub col_hint_count: i32,
    /// How many cells are picked to be blanked in the selection grid.
    pub gap_count: i32,
}

impl Settings {
    /// The settings ask for no more hints on an axis than the axis has
    /// lines.
    pub open spec fn hints_fit(&self) -> bool {
        hints_fit(
            self.row_hint_count,
            self.col_hint_count,
            self.row_tile_count as int,
            self.col_tile_count as int,
        )
    }

    /// A puzzle can be generated from these settings: the grid has a size,
    /// there is a cell to blank where blanking is asked for, and, unless
    /// more hints are asked for than there are lines, each axis that is to
    /// get hints can be hinted.
    ///
    /// Hint counts above the tile counts do not stand in the way:
    /// generation reports them as `ExhaustedLineSpace`.
    pub open spec fn playable(&self) -> bool {
        &&& 0 <= self.row_tile_count
        &&& 0 <= self.col_tile_count
        &&& self.gap_count > 0 ==> self.row_tile_count >= 1 && self.col_tile_count >= 1
        &&& self.hints_fit() ==> axes_hintable(
            self.row_hint_count,
            self.col_hint_count,
            self.row_tile_count as int,
            self.col_tile_count as int,
        )
    }

    /// Whether a puzzle can be generated from these settings.
    pub fn is_playable(&self) -> (playable: bool)
        ensures
            playable == self.playable(),
    {
        let rows: i32 = self.row_tile_count;
        let cols: i32 = self.col_tile_count;
        if rows < 0 || cols < 0 {
            return false;
        }
        if self.gap_count > 0 && (rows < 1 || cols < 1) {
            return false;
        }
        if self.row_hint_count > rows || self.col_hint_count > cols {
            return true;
        }
        if self.row_hint_count > 0 && !(MIN_LINE_SPAN <= rows && rows <= MAX_LINE_SPAN
            && TOTAL_SLOTS <= cols) {
            return false;
        }
        if self.col_hint_count > 0 && !(MIN_LINE_SPAN <= cols && cols <= MAX_LINE_SPAN
            && TOTAL_SLOTS <= rows) {
            return false;
        }
        true
    }
}

} // verus!
