//! Hints: a revealed, gapped, strictly ordered part of one row or column.
//!
//! The positions of a hint are drawn from a fixed window of `TOTAL_SLOTS`
//! slots. The window is a constant of the puzzle and is not derived from the
//! grid: a line can only be hinted when it is at least as long as the
//! window, and the functions below ask for that.

use crate::error::PuzzleError;
use crate::matrix::Matrix2D;
use crate::random::random_in_range;
use rand::rngs::StdRng;
use vstd::prelude::*;

verus! {

/// The number of slots from which hint positions are drawn: `0..=7`.
pub const TOTAL_SLOTS: i32 = 8;

/// The smallest number of positions that a generated hint reveals.
pub const MIN_HINT_SIZE: i32 = 2;

/// The fewest lines an axis must have for a hint to be generated on it: a
/// hint reveals between `MIN_HINT_SIZE` and `lines - 3` positions.
pub const MIN_LINE_SPAN: i32 = 5;

/// The most lines an axis may have for a hint to be generated on it: with
/// more, `lines - 3` positions would no longer fit the slot window.
pub const MAX_LINE_SPAN: i32 = 11;

/// The axis that a hint describes.
#[derive(Clone, Copy, Debug, PartialEq, Eq, Structural)]
pub enum HintType {
    Row,
    Column,
}

/// One hint: some values of one line, with the positions at which the line
/// holds them.
#[derive(Debug, PartialEq, Eq)]
pub struct HintItem {
    pub hint_type: HintType,
    /// Which row or column the hint describes.
    pub index: i32,
    /// The values found at `indexes`, in the same order.
    pub values: Vec<i32>,
    /// The positions within the line, strictly increasing.
    pub indexes: Vec<i32>,
}

/// A set of hints: all row hints first, then all column hints, each group in
/// the order of generation.
#[derive(Debug)]
pub struct Hints(pub Vec<HintItem>);

/// Every element is smaller than the elements that follow it.
pub open spec fn strictly_increasing(s: Seq<i32>) -> bool {
    forall|i: int, j: int| 0 <= i < j < s.len() ==> s[i] < s[j]
}

/// `indexes` is a strictly increasing sequence of `size` slots of the
/// window.
pub open spec fn is_index_sequence(indexes: Seq<i32>, size: int) -> bool {
    &&& indexes.len() == size
    &&& strictly_increasing(indexes)
    &&& forall|k: int| 0 <= k < indexes.len() ==> 0 <= #[trigger] indexes[k] < TOTAL_SLOTS
}

/// The values that `line` holds at `indexes`, in the order of `indexes`.
pub open spec fn values_at(line: Seq<i32>, indexes: Seq<i32>) -> Seq<i32> {
    Seq::new(indexes.len(), |k: int| line[indexes[k] as int])
}

/// Every line `0..line_span` of an axis occurs in `used`.
pub open spec fn line_space_exhausted(line_span: int, used: Seq<i32>) -> bool {
    forall|line: i32| 0 <= line < line_span ==> used.contains(line)
}

/// An axis of `line_count` lines, each `line_length` cells long, can be
/// hinted: the size of a hint can be drawn, it fits the slot window, and
/// every slot of the window is a cell of the line.
pub open spec fn hintable(line_count: int, line_length: int) -> bool {
    MIN_LINE_SPAN <= line_count <= MAX_LINE_SPAN && TOTAL_SLOTS <= line_length
}

/// Neither axis of a grid of `rows` by `cols` is asked for more hints than
/// it has lines.
pub open spec fn hints_fit(row_hint_count: i32, column_hint_count: i32, rows: int, cols: int) -> bool {
    row_hint_count <= rows && column_hint_count <= cols
}

/// Each axis of a grid of `rows` by `cols` that is asked for a hint can be
/// hinted.
pub open spec fn axes_hintable(
    row_hint_count: i32,
    column_hint_count: i32,
    rows: int,
    cols: int,
) -> bool {
    &&& row_hint_count > 0 ==> hintable(rows, cols)
    &&& column_hint_count > 0 ==> hintable(cols, rows)
}

/// The number of hints that a request for `count` hints asks for.
pub open spec fn requested(count: i32) -> int {
    if count > 0 {
        count as int
    } else {
        0
    }
}

impl HintItem {
    /// The row and column of the cell that position `k` of the hint reveals.
    pub open spec fn cell_of(&self, k: int) -> (int, int) {
        match self.hint_type {
            HintType::Row => (self.index as int, self.indexes@[k] as int),
            HintType::Column => (self.indexes@[k] as int, self.index as int),
        }
    }

    /// The hint is true of `grid`: its positions are strictly increasing
    /// slots of the window, it has one value for each position, and each
    /// value is the one that the grid holds in the cell revealed.
    pub open spec fn describes(&self, grid: &Matrix2D) -> bool {
        &&& is_index_sequence(self.indexes@, self.indexes@.len() as int)
        &&& self.values@.len() == self.indexes@.len()
        &&& forall|k: int|
            0 <= k < self.indexes@.len() ==> grid.spec_get(self.cell_of(k).0, self.cell_of(k).1)
                == Some(#[trigger] self.values@[k])
    }

    /// The hint is one that generation on an axis of `line_count` lines can
    /// give for `grid`: it describes a line of that axis and reveals between
    /// `MIN_HINT_SIZE` and `line_count - 3` positions of it.
    pub open spec fn generated_for(&self, grid: &Matrix2D, axis: HintType, line_count: int) -> bool {
        &&& self.hint_type == axis
        &&& 0 <= self.index < line_count
        &&& MIN_HINT_SIZE <= self.indexes@.len() <= line_count - 3
        &&& self.describes(grid)
    }
}

/// `hints` is a hint set of `grid` with `row_hints` row hints followed by
/// `column_hints` column hints, and no line of an axis is hinted twice.
pub open spec fn is_hint_set(
    hints: Seq<HintItem>,
    row_hints: int,
    column_hints: int,
    grid: &Matrix2D,
) -> bool {
    &&& hints.len() == row_hints + column_hints
    &&& forall|k: int|
        0 <= k < row_hints ==> (#[trigger] hints[k]).generated_for(
            grid,
            HintType::Row,
            grid.rows() as int,
        )
    &&& forall|k: int|
        row_hints <= k < hints.len() ==> (#[trigger] hints[k]).generated_for(
            grid,
            HintType::Column,
            grid.cols() as int,
        )
    &&& forall|i: int, j: int|
        0 <= i < j < row_hints ==> (#[trigger] hints[i]).index != (#[trigger] hints[j]).index
    &&& forall|i: int, j: int|
        row_hints <= i < j < hints.len() ==> (#[trigger] hints[i]).index != (
        #[trigger] hints[j]).index
}

/// On a square grid a generated hint is never total: at least two cells of
/// its line stay unrevealed.
pub proof fn lemma_hint_is_partial_on_square_grid(hint: HintItem, grid: &Matrix2D, axis: HintType)
    requires
        grid.rows() == grid.cols(),
        hint.generated_for(grid, axis, grid.rows() as int),
    ensures
        MIN_HINT_SIZE <= hint.indexes@.len() <= grid.cols() - 2,
        MIN_HINT_SIZE <= hint.indexes@.len() <= grid.rows() - 2,
{
}

/// Fewer hints than lines leave a line without a hint.
pub proof fn lemma_unused_line_exists(line_span: int, used: Seq<i32>)
    requires
        used.len() < line_span <= i32::MAX,
    ensures
        !line_space_exhausted(line_span, used),
    decreases used.len(),
{
    let top = (line_span - 1) as i32;
    if used.contains(top) {
        let at = choose|k: int| 0 <= k < used.len() && used[k] == top;
        let rest = used.remove(at);
        lemma_unused_line_exists(line_span - 1, rest);
        let free = choose|line: i32| 0 <= line < line_span - 1 && !rest.contains(line);
        if used.contains(free) {
            let m = choose|m: int| 0 <= m < used.len() && used[m] == free;
            if m < at {
                assert(rest[m] == free);
            } else {
                assert(rest[m - 1] == free);
            }
        }
        assert(0 <= free < line_span && !used.contains(free));
    } else {
        assert(0 <= top < line_span && !used.contains(top));
    }
}

/// Whether `wanted` occurs in `values`.
fn occurs_in(values: &Vec<i32>, wanted: i32) -> (found: bool)
    ensures
        found == values@.contains(wanted),
{
    for k in 0..values.len()
        invariant
            forall|i: int| 0 <= i < k ==> values@[i] != wanted,
    {
        if values[k] == wanted {
            return true;
        }
    }
    false
}

/// The lines `0..=last_index` that do not occur in `used`, in increasing
/// order. These are the lines that can still be given a hint.
pub fn available_indexes(last_index: i32, used: &Vec<i32>) -> (free: Vec<i32>)
    ensures
        strictly_increasing(free@),
        forall|line: i32|
            free@.contains(line) <==> 0 <= line <= last_index && !used@.contains(line),
{
    let mut free: Vec<i32> = Vec::new();
    let end: i64 = last_index as i64;
    let mut next: i64 = 0;
    while next <= end
        invariant
            end == last_index,
            0 <= next,
            next <= end + 1 || next == 0,
            strictly_increasing(free@),
            forall|line: i32|
                free@.contains(line) <==> 0 <= line < next && !used@.contains(line),
        decreases end - next + 1,
    {
        let line: i32 = next as i32;
        if !occurs_in(used, line) {
            let ghost before = free@;
            assert forall|k: int| 0 <= k < before.len() implies before[k] < line by {
                assert(before.contains(before[k]));
            }
            free.push(line);
            assert forall|other: i32|
                free@.contains(other) <==> 0 <= other < next + 1 && !used@.contains(other) by {
                if free@.contains(other) {
                    let k = choose|k: int| 0 <= k < free@.len() && free@[k] == other;
                    if k < before.len() {
                        assert(before.contains(before[k]));
                    }
                }
                if 0 <= other < next + 1 && !used@.contains(other) {
                    if other == line {
                        assert(free@[before.len() as int] == other);
                    } else {
                        assert(before.contains(other));
                        let k = choose|k: int| 0 <= k < before.len() && before[k] == other;
                        assert(free@[k] == other);
                    }
                }
            }
        }
        next += 1;
    }
    free
}

/// Picks at random a line of `0..=max` that does not occur in
/// `ignore_indexes`.
///
/// Fails with `ExhaustedLineSpace` exactly when there is no such line.
pub fn generate_index(rng: &mut StdRng, max: i32, ignore_indexes: &Vec<i32>) -> (picked: Result<
    i32,
    PuzzleError,
>)
    ensures
        match picked {
            Ok(index) => 0 <= index <= max && !ignore_indexes@.contains(index),
            Err(error) => error == PuzzleError::ExhaustedLineSpace && line_space_exhausted(
                max + 1,
                ignore_indexes@,
            ),
        },
{
    let free = available_indexes(max, ignore_indexes);
    if free.len() == 0 {
        assert forall|line: i32| 0 <= line < max + 1 implies ignore_indexes@.contains(line) by {
            if !ignore_indexes@.contains(line) {
                assert(free@.contains(line));
            }
        }
        return Err(PuzzleError::ExhaustedLineSpace);
    }
    let pick: usize = random_in_range(rng, 0, free.len() - 1);
    assert(free@.contains(free@[pick as int]));
    Ok(free[pick])
}

/// Draws a strictly increasing sequence of `size` slots of the window.
///
/// The slots are drawn one after the other, each from the slots above the
/// one before, and never so high that the slots still to come would not
/// fit. A `size` of zero or less gives the empty sequence.
pub fn get_random_indexes(size: i32, rng: &mut StdRng) -> (indexes: Vec<i32>)
    requires
        size <= TOTAL_SLOTS,
    ensures
        is_index_sequence(indexes@, requested(size)),
{
    let mut result: Vec<i32> = Vec::new();
    if size <= 0 {
        return result;
    }
    let mut min: i32 = 0;
    let mut max: i32 = TOTAL_SLOTS - size;
    let mut size_offset: i32 = size - 1;
    for drawn in 0..size
        invariant
            0 < size <= TOTAL_SLOTS,
            result@.len() == drawn,
            size_offset == size - 1 - drawn,
            max == TOTAL_SLOTS - 1 - size_offset,
            0 <= min <= max,
            strictly_increasing(result@),
            forall|k: int| 0 <= k < result@.len() ==> 0 <= #[trigger] result@[k] < min,
    {
        let index: i32 = random_in_range(rng, min as usize, max as usize) as i32;
        result.push(index);
        size_offset -= 1;
        min = index + 1;
        max = (TOTAL_SLOTS - 1) - size_offset;
    }
    result
}

/// Reads from `line` the values at `indexes`, in the order of `indexes`.
pub fn pick_values(line: &Vec<i32>, indexes: &Vec<i32>) -> (values: Vec<i32>)
    requires
        forall|k: int| 0 <= k < indexes@.len() ==> 0 <= #[trigger] indexes@[k] < line@.len(),
    ensures
        values@ == values_at(line@, indexes@),
{
    let mut values: Vec<i32> = Vec::new();
    for k in 0..indexes.len()
        invariant
            forall|i: int| 0 <= i < indexes@.len() ==> 0 <= #[trigger] indexes@[i] < line@.len(),
            values@.len() == k,
            forall|i: int| 0 <= i < k ==> #[trigger] values@[i] == line@[indexes@[i] as int],
    {
        values.push(line[indexes[k] as usize]);
    }
    assert(values@ =~= values_at(line@, indexes@));
    values
}

/// Builds a hint of `size` positions for row `row_index`.
pub fn create_row_hint(row_index: i32, size: i32, matrix: &Matrix2D, rng: &mut StdRng) -> (hint:
    HintItem)
    requires
        0 <= row_index < matrix.rows(),
        size <= TOTAL_SLOTS,
        size > 0 ==> TOTAL_SLOTS <= matrix.cols(),
    ensures
        hint.hint_type == HintType::Row,
        hint.index == row_index,
        hint.indexes@.len() == requested(size),
        hint.describes(matrix),
{
    let indexes = get_random_indexes(size, rng);
    let row = matrix.get_row(row_index as usize);
    let values = pick_values(row, &indexes);
    HintItem { hint_type: HintType::Row, index: row_index, values, indexes }
}

/// Builds a hint of `size` positions for column `col_index`.
pub fn create_column_hint(col_index: i32, size: i32, matrix: &Matrix2D, rng: &mut StdRng) -> (hint:
    HintItem)
    requires
        0 <= col_index < matrix.cols(),
        size <= TOTAL_SLOTS,
        size > 0 ==> TOTAL_SLOTS <= matrix.rows(),
    ensures
        hint.hint_type == HintType::Column,
        hint.index == col_index,
        hint.indexes@.len() == requested(size),
        hint.describes(matrix),
{
    let indexes = get_random_indexes(size, rng);
    let column = matrix.get_column(col_index as usize);
    let values = pick_values(&column, &indexes);
    HintItem { hint_type: HintType::Column, index: col_index, values, indexes }
}

/// Builds one hint on the axis `hint_type`, which has `size` lines.
///
/// The line is one of `0..size` that does not occur in `ignore_indexes`; the
/// hint reveals between `MIN_HINT_SIZE` and `size - 3` positions of it.
/// Fails with `ExhaustedLineSpace` exactly when `ignore_indexes` leaves no
/// line.
pub fn create_hint(
    hint_type: HintType,
    matrix: &Matrix2D,
    ignore_indexes: &Vec<i32>,
    size: i32,
    rng: &mut StdRng,
) -> (made: Result<HintItem, PuzzleError>)
    requires
        MIN_LINE_SPAN <= size <= MAX_LINE_SPAN,
        match hint_type {
            HintType::Row => size <= matrix.rows() && TOTAL_SLOTS <= matrix.cols(),
            HintType::Column => size <= matrix.cols() && TOTAL_SLOTS <= matrix.rows(),
        },
    ensures
        match made {
            Ok(hint) => hint.generated_for(matrix, hint_type, size as int)
                && !ignore_indexes@.contains(hint.index),
            Err(error) => error == PuzzleError::ExhaustedLineSpace && line_space_exhausted(
                size as int,
                ignore_indexes@,
            ),
        },
{
    let last_index: i32 = size - 1;
    let index: i32 = match generate_index(rng, last_index, ignore_indexes) {
        Ok(index) => index,
        Err(error) => {
            return Err(error);
        },
    };
    let low: usize = MIN_HINT_SIZE as usize;
    let high: usize = (last_index - 2) as usize;
    let hint_size: i32 = random_in_range(rng, low, high) as i32;
    match hint_type {
        HintType::Row => Ok(create_row_hint(index, hint_size, matrix, rng)),
        HintType::Column => Ok(create_column_hint(index, hint_size, matrix, rng)),
    }
}

/// Builds a hint set of `row_hint_count` row hints followed by
/// `column_hint_count` column hints; a count of zero or less asks for none.
///
/// No row and no column gets more than one hint. Asking for more hints than
/// the axis has lines fails with `ExhaustedLineSpace` before anything is
/// drawn.
pub fn create_hints(
    row_hint_count: i32,
    column_hint_count: i32,
    matrix: &Matrix2D,
    rng: &mut StdRng,
) -> (made: Result<Hints, PuzzleError>)
    requires
        hints_fit(
            row_hint_count,
            column_hint_count,
            matrix.rows() as int,
            matrix.cols() as int,
        ) ==> axes_hintable(
            row_hint_count,
            column_hint_count,
            matrix.rows() as int,
            matrix.cols() as int,
        ),
    ensures
        match made {
            Ok(hints) => hints_fit(
                row_hint_count,
                column_hint_count,
                matrix.rows() as int,
                matrix.cols() as int,
            ) && is_hint_set(
                hints.0@,
                requested(row_hint_count),
                requested(column_hint_count),
                matrix,
            ),
            Err(error) => error == PuzzleError::ExhaustedLineSpace && !hints_fit(
                row_hint_count,
                column_hint_count,
                matrix.rows() as int,
                matrix.cols() as int,
            ),
        },
{
    let rows: usize = matrix.rows();
    let cols: usize = matrix.cols();
    if (row_hint_count > 0 && row_hint_count as usize > rows) || (column_hint_count > 0
        && column_hint_count as usize > cols) {
        return Err(PuzzleError::ExhaustedLineSpace);
    }
    let mut result: Vec<HintItem> = Vec::new();

    let mut row_indexes: Vec<i32> = Vec::new();
    if row_hint_count > 0 {
        let row_size: i32 = rows as i32;
        for made_rows in 0..row_hint_count
            invariant
                matrix.well_formed(),
                hintable(matrix.rows() as int, matrix.cols() as int),
                row_size == matrix.rows(),
                0 < row_hint_count <= row_size,
                result@.len() == made_rows,
                row_indexes@.len() == made_rows,
                forall|k: int| 0 <= k < made_rows ==> row_indexes@[k] == (#[trigger] result@[k]).index,
                is_hint_set(result@, made_rows as int, 0, matrix),
        {
            proof {
                lemma_unused_line_exists(row_size as int, row_indexes@);
            }
            match create_hint(HintType::Row, matrix, &row_indexes, row_size, rng) {
                Ok(hint) => {
                    assert forall|k: int| 0 <= k < made_rows implies (#[trigger] result@[k]).index
                        != hint.index by {
                        assert(row_indexes@.contains(row_indexes@[k]));
                    }
                    row_indexes.push(hint.index);
                    result.push(hint);
                },
                Err(error) => {
                    return Err(error);
                },
            }
        }
    }
    let ghost row_hints = requested(row_hint_count);

    let mut col_indexes: Vec<i32> = Vec::new();
    if column_hint_count > 0 {
        let col_size: i32 = cols as i32;
        for made_cols in 0..column_hint_count
            invariant
                matrix.well_formed(),
                hintable(matrix.cols() as int, matrix.rows() as int),
                col_size == matrix.cols(),
                0 < column_hint_count <= col_size,
                row_hints == requested(row_hint_count),
                result@.len() == row_hints + made_cols,
                col_indexes@.len() == made_cols,
                forall|k: int|
                    0 <= k < made_cols ==> col_indexes@[k] == (#[trigger] result@[row_hints
                        + k]).index,
                is_hint_set(result@, row_hints, made_cols as int, matrix),
        {
            proof {
                lemma_unused_line_exists(col_size as int, col_indexes@);
            }
            match create_hint(HintType::Column, matrix, &col_indexes, col_size, rng) {
                Ok(hint) => {
                    assert forall|k: int|
                        row_hints <= k < row_hints + made_cols implies (#[trigger] result@[k]).index
                        != hint.index by {
                        assert(col_indexes@.contains(col_indexes@[k - row_hints]));
                        assert(result@[row_hints + (k - row_hints)].index == col_indexes@[k
                            - row_hints]);
                    }
                    col_indexes.push(hint.index);
                    result.push(hint);
                },
                Err(error) => {
                    return Err(error);
                },
            }
        }
    }
    Ok(Hints(result))
}

} // verus!
