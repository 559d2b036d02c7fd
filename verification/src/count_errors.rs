//! The mismatch counter: every cell in which a candidate grid disagrees with
//! the solved grid.

use crate::error::PuzzleError;
use crate::matrix::Matrix2D;
use vstd::prelude::*;

verus! {

/// The coordinates of one cell.
#[derive(Clone, Copy, Debug, PartialEq, Eq, Structural)]
pub struct Cell {
    pub row: usize,
    pub col: usize,
}

/// `first` is read before `second` when a grid is read row by row.
pub open spec fn row_major_before(first: Cell, second: Cell) -> bool {
    first.row < second.row || (first.row == second.row && first.col < second.col)
}

/// `cell` lies in `solved`, and `candidate` holds another value there.
pub open spec fn differs_at(solved: Seq<Seq<i32>>, candidate: Seq<Seq<i32>>, cell: Cell) -> bool {
    &&& 0 <= cell.row < solved.len()
    &&& 0 <= cell.col < solved[cell.row as int].len()
    &&& solved[cell.row as int][cell.col as int] != candidate[cell.row as int][cell.col as int]
}

/// Each cell of `cells` is read before the cells that follow it, so no cell
/// occurs twice.
pub open spec fn in_row_major_order(cells: Seq<Cell>) -> bool {
    forall|i: int, j: int|
        0 <= i < j < cells.len() ==> row_major_before(#[trigger] cells[i], #[trigger] cells[j])
}

/// `cells` lists every differing cell of the two grids exactly once, in
/// row-major order, and nothing else.
pub open spec fn is_mismatch_report(
    solved: Seq<Seq<i32>>,
    candidate: Seq<Seq<i32>>,
    cells: Seq<Cell>,
) -> bool {
    &&& forall|k: int| 0 <= k < cells.len() ==> differs_at(solved, candidate, #[trigger] cells[k])
    &&& forall|cell: Cell| #[trigger] differs_at(solved, candidate, cell) ==> cells.contains(cell)
    &&& in_row_major_order(cells)
}

/// `cells` is the report of the two grids as far as the scan has come: it
/// lists, in row-major order, exactly the differing cells read before
/// `next`.
spec fn is_report_before(
    solved: Seq<Seq<i32>>,
    candidate: Seq<Seq<i32>>,
    cells: Seq<Cell>,
    next: Cell,
) -> bool {
    &&& forall|k: int|
        0 <= k < cells.len() ==> differs_at(solved, candidate, #[trigger] cells[k])
            && row_major_before(cells[k], next)
    &&& forall|cell: Cell|
        #[trigger] differs_at(solved, candidate, cell) && row_major_before(cell, next)
            ==> cells.contains(cell)
    &&& in_row_major_order(cells)
}

/// Lists every cell in which `selected` differs from `matrix`.
///
/// The whole grid is always scanned, row by row; an empty list means that
/// the two grids agree everywhere. Grids of different shape cannot be
/// compared and give `ShapeMismatch`.
pub fn count_errors(matrix: &Matrix2D, selected: &Matrix2D) -> (report: Result<
    Vec<Cell>,
    PuzzleError,
>)
    ensures
        match report {
            Ok(cells) => matrix.same_shape(selected) && is_mismatch_report(
                matrix@,
                selected@,
                cells@,
            ),
            Err(error) => error == PuzzleError::ShapeMismatch && !matrix.same_shape(selected),
        },
{
    let rows: usize = matrix.rows();
    let cols: usize = matrix.cols();
    if rows != selected.rows() || cols != selected.cols() {
        return Err(PuzzleError::ShapeMismatch);
    }
    let mut errors: Vec<Cell> = Vec::new();
    for i in 0..rows
        invariant
            matrix.well_formed(),
            selected.well_formed(),
            rows == matrix.rows(),
            cols == matrix.cols(),
            matrix.same_shape(selected),
            is_report_before(matrix@, selected@, errors@, Cell { row: i, col: 0 }),
    {
        for j in 0..cols
            invariant
                i < rows,
                matrix.well_formed(),
                selected.well_formed(),
                rows == matrix.rows(),
                cols == matrix.cols(),
                matrix.same_shape(selected),
                is_report_before(matrix@, selected@, errors@, Cell { row: i, col: j }),
        {
            let value = matrix.get(i, j);
            let selected_value = selected.get(i, j);
            let ghost seen = errors@;
            let ghost here = Cell { row: i, col: j };
            let ghost next = Cell { row: i, col: (j + 1) as usize };
            if value != selected_value {
                errors.push(Cell { row: i, col: j });
                proof {
                    assert(errors@[seen.len() as int] == here);
                    assert forall|cell: Cell|
                        #[trigger] differs_at(matrix@, selected@, cell) && row_major_before(
                            cell,
                            next,
                        ) implies errors@.contains(cell) by {
                        if row_major_before(cell, here) {
                            let k = choose|k: int| 0 <= k < seen.len() && seen[k] == cell;
                            assert(errors@[k] == cell);
                        } else {
                            assert(cell == here);
                        }
                    }
                }
            } else {
                proof {
                    assert forall|cell: Cell|
                        #[trigger] differs_at(matrix@, selected@, cell) && row_major_before(
                            cell,
                            next,
                        ) implies errors@.contains(cell) by {
                        assert(row_major_before(cell, here));
                    }
                }
            }
        }
        proof {
            let end = Cell { row: i, col: cols };
            let next = Cell { row: (i + 1) as usize, col: 0 };
            assert forall|cell: Cell|
                #[trigger] differs_at(matrix@, selected@, cell) && row_major_before(
                    cell,
                    next,
                ) implies errors@.contains(cell) by {
                assert(row_major_before(cell, end));
            }
        }
    }
    proof {
        let end = Cell { row: rows, col: 0 };
        assert forall|cell: Cell| #[trigger]
            differs_at(matrix@, selected@, cell) implies errors@.contains(cell) by {
            assert(row_major_before(cell, end));
        }
    }
    Ok(errors)
}

/// A grid never differs from itself: its report against itself is empty.
pub proof fn lemma_report_against_itself_is_empty(grid: Seq<Seq<i32>>, cells: Seq<Cell>)
    requires
        is_mismatch_report(grid, grid, cells),
    ensures
        cells.len() == 0,
{
    if cells.len() > 0 {
        assert(differs_at(grid, grid, cells[0]));
    }
}

/// The report of two grids is unique: the conditions on a report leave no
/// choice about its length, its cells or their order.
pub proof fn lemma_report_is_unique(
    solved: Seq<Seq<i32>>,
    candidate: Seq<Seq<i32>>,
    first: Seq<Cell>,
    second: Seq<Cell>,
)
    requires
        is_mismatch_report(solved, candidate, first),
        is_mismatch_report(solved, candidate, second),
    ensures
        first == second,
{
    assert forall|cell: Cell| first.contains(cell) == second.contains(cell) by {
        if first.contains(cell) {
            let k = choose|k: int| 0 <= k < first.len() && first[k] == cell;
            assert(differs_at(solved, candidate, first[k]));
        }
        if second.contains(cell) {
            let k = choose|k: int| 0 <= k < second.len() && second[k] == cell;
            assert(differs_at(solved, candidate, second[k]));
        }
    }
    lemma_ordered_cells_are_equal(first, second);
}

/// Two lists of cells in row-major order that hold the same cells are the
/// same list.
pub proof fn lemma_ordered_cells_are_equal(first: Seq<Cell>, second: Seq<Cell>)
    requires
        in_row_major_order(first),
        in_row_major_order(second),
        forall|cell: Cell| first.contains(cell) == second.contains(cell),
    ensures
        first == second,
    decreases first.len(),
{
    if first.len() == 0 {
        if second.len() > 0 {
            assert(second.contains(second[0]));
        }
        assert(first =~= second);
    } else {
        let last = first.last();
        assert(first.contains(last));
        let at = choose|k: int| 0 <= k < second.len() && second[k] == last;
        if at < second.len() - 1 {
            let after = second[second.len() - 1];
            assert(row_major_before(second[at], after));
            assert(second.contains(after));
            let back = choose|k: int| 0 <= k < first.len() && first[k] == after;
            if back < first.len() - 1 {
                assert(row_major_before(first[back], first[first.len() - 1]));
            }
        }
        let first_rest = first.drop_last();
        let second_rest = second.drop_last();
        assert forall|cell: Cell| first_rest.contains(cell) == second_rest.contains(cell) by {
            if first_rest.contains(cell) {
                let k = choose|k: int| 0 <= k < first_rest.len() && first_rest[k] == cell;
                assert(row_major_before(first[k], first[first.len() - 1]));
                assert(first.contains(cell));
                let m = choose|m: int| 0 <= m < second.len() && second[m] == cell;
                assert(second_rest[m] == cell);
            }
            if second_rest.contains(cell) {
                let k = choose|k: int| 0 <= k < second_rest.len() && second_rest[k] == cell;
                assert(row_major_before(second[k], second[second.len() - 1]));
                assert(second.contains(cell));
                let m = choose|m: int| 0 <= m < first.len() && first[m] == cell;
                assert(first_rest[m] == cell);
            }
        }
        lemma_ordered_cells_are_equal(first_rest, second_rest);
        assert(first =~= first_rest.push(last));
        assert(second =~= second_rest.push(last));
    }
}

} // verus!
