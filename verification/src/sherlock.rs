//! Puzzle assembly: the selection grid with its gaps, and the three parts
//! of a puzzle built from its settings.

use crate::count_errors::differs_at;
use crate::count_errors::is_mismatch_report;
use crate::count_errors::Cell;
use crate::error::PuzzleError;
use crate::hints::create_hints;
use crate::hints::is_hint_set;
use crate::hints::requested;
use crate::hints::Hints;
use crate::matrix::canonical_cells;
use crate::matrix::cells_complete;
use crate::matrix::lemma_canonical_cells_are_complete;
use crate::matrix::lemma_permuted_rows_stay_complete;
use crate::matrix::rows_permuted;
use crate::matrix::Matrix2D;
use crate::matrix::EMPTY_CELL;
use crate::random::random_in_range;
use crate::settings::Settings;
use rand::rngs::StdRng;
use vstd::prelude::*;

verus! {

/// One puzzle: the solved grid, the grid that the player starts from, and
/// the hints.
#[derive(Debug)]
pub struct Puzzle {
    /// The solved grid.
    pub data: Matrix2D,
    /// The solved grid with some cells blanked.
    pub selected: Matrix2D,
    /// The hints, all of them true of `data`.
    pub hints: Hints,
}

/// `cells`, with every cell that occurs in `picks` emptied.
pub open spec fn with_gaps(cells: Seq<Seq<i32>>, picks: Seq<Cell>) -> Seq<Seq<i32>> {
    Seq::new(
        cells.len(),
        |r: int|
            Seq::new(
                cells[r].len(),
                |c: int|
                    if picks.contains(Cell { row: r as usize, col: c as usize }) {
                        EMPTY_CELL
                    } else {
                        cells[r][c]
                    },
            ),
    )
}

/// `picks` names cells of `grid` only.
pub open spec fn picks_within(grid: &Matrix2D, picks: Seq<Cell>) -> bool {
    forall|k: int|
        0 <= k < picks.len() ==> grid.in_bounds(
            (#[trigger] picks[k]).row as int,
            picks[k].col as int,
        )
}

/// `after` is `before` with `count` picked cells emptied. Picks may repeat,
/// so fewer than `count` cells may have been emptied.
pub open spec fn gaps_injected(before: &Matrix2D, after: &Matrix2D, count: i32) -> bool {
    exists|picks: Seq<Cell>|
        picks.len() == requested(count) && picks_within(before, picks) && after@ == #[trigger] with_gaps(
            before@,
            picks,
        )
}

/// The empty cells of `cells`.
pub open spec fn empty_cells(cells: Seq<Seq<i32>>) -> Set<Cell> {
    Set::new(
        |cell: Cell|
            cell.row < cells.len() && cell.col < cells[cell.row as int].len()
                && cells[cell.row as int][cell.col as int] == EMPTY_CELL,
    )
}

/// Empties `count` cells of `selection`, each picked at random among all
/// cells, whatever was picked before. A count of zero or less empties none.
///
/// The picks are independent: one cell may be picked several times, and
/// then fewer than `count` cells end up empty.
pub fn set_selection_gaps(selection: &mut Matrix2D, count: i32, rng: &mut StdRng)
    requires
        count > 0 ==> old(selection).rows() >= 1 && old(selection).cols() >= 1,
    ensures
        final(selection).same_shape(old(selection)),
        final(selection).well_formed(),
        gaps_injected(old(selection), final(selection), count),
{
    let rows: usize = selection.rows();
    let cols: usize = selection.cols();
    let ghost mut picks: Seq<Cell> = Seq::empty();
    assert(selection@ =~~= with_gaps(old(selection)@, picks));
    if count > 0 {
        let row_count: usize = rows - 1;
        let col_count: usize = cols - 1;
        for made in 0..count
            invariant
                rows == old(selection).rows(),
                cols == old(selection).cols(),
                row_count == rows - 1,
                col_count == cols - 1,
                old(selection).well_formed(),
                selection.same_shape(old(selection)),
                selection.well_formed(),
                picks.len() == made,
                picks_within(old(selection), picks),
                selection@ == with_gaps(old(selection)@, picks),
        {
            let row: usize = random_in_range(rng, 0, row_count);
            let col: usize = random_in_range(rng, 0, col_count);
            let ghost before = selection@;
            let ghost earlier = picks;
            selection.set(row, col, EMPTY_CELL);
            proof {
                let pick = Cell { row, col };
                picks = earlier.push(pick);
                assert forall|cell: Cell| picks.contains(cell) <==> earlier.contains(cell) || cell
                    == pick by {
                    if earlier.contains(cell) {
                        let k = choose|k: int| 0 <= k < earlier.len() && earlier[k] == cell;
                        assert(picks[k] == cell);
                    }
                    assert(picks[earlier.len() as int] == pick);
                }
                assert forall|r: int| 0 <= r < selection@.len() implies #[trigger] selection@[r]
                    =~= with_gaps(old(selection)@, picks)[r] by {
                    assert forall|c: int| 0 <= c < selection@[r].len() implies selection@[r][c]
                        == with_gaps(old(selection)@, picks)[r][c] by {
                        let cell = Cell { row: r as usize, col: c as usize };
                        assert(picks.contains(cell) <==> earlier.contains(cell) || cell == pick);
                    }
                }
                assert(selection@ =~= with_gaps(old(selection)@, picks));
            }
        }
    }
}

/// Emptying picked cells adds exactly the picked cells to the empty cells
/// of a grid.
pub proof fn lemma_gaps_add_picks(grid: &Matrix2D, picks: Seq<Cell>)
    requires
        grid.well_formed(),
        picks_within(grid, picks),
    ensures
        empty_cells(with_gaps(grid@, picks)) == empty_cells(grid@).union(picks.to_set()),
{
    let after = with_gaps(grid@, picks);
    assert forall|cell: Cell|
        empty_cells(after).contains(cell) <==> empty_cells(grid@).union(picks.to_set()).contains(
            cell,
        ) by {
        if picks.contains(cell) {
            let k = choose|k: int| 0 <= k < picks.len() && picks[k] == cell;
            assert(grid.in_bounds(picks[k].row as int, picks[k].col as int));
        }
        assert(Cell { row: cell.row as int as usize, col: cell.col as int as usize } == cell);
    }
    assert(empty_cells(after) =~= empty_cells(grid@).union(picks.to_set()));
}

/// In a grid without empty cells, picking at least one cell and at most
/// `picks.len()` cells to be emptied leaves at least one and at most
/// `picks.len()` cells empty: the cells picked, each counted once.
pub proof fn lemma_gaps_in_complete_grid(grid: &Matrix2D, picks: Seq<Cell>)
    requires
        grid.well_formed(),
        cells_complete(grid@),
        picks_within(grid, picks),
        picks.len() >= 1,
    ensures
        empty_cells(with_gaps(grid@, picks)) == picks.to_set(),
        empty_cells(with_gaps(grid@, picks)).finite(),
        1 <= empty_cells(with_gaps(grid@, picks)).len() <= picks.len(),
{
    lemma_gaps_add_picks(grid, picks);
    assert(empty_cells(grid@) =~= Set::<Cell>::empty());
    assert(empty_cells(grid@).union(picks.to_set()) =~= picks.to_set());
    vstd::seq_lib::seq_to_set_is_finite(picks);
    picks.lemma_cardinality_of_set();
    assert(picks.to_set().contains(picks[0]));
    if picks.to_set().len() == 0 {
        picks.to_set().lemma_len0_is_empty();
    }
}

/// Against a grid without empty cells, the mismatch report of its gapped
/// copy lists exactly the cells picked, each once: the player has as many
/// cells to fill as distinct cells were picked, and never more than picks
/// were made.
pub proof fn lemma_gaps_are_the_mismatches(grid: &Matrix2D, picks: Seq<Cell>, cells: Seq<Cell>)
    requires
        grid.well_formed(),
        cells_complete(grid@),
        picks_within(grid, picks),
        is_mismatch_report(grid@, with_gaps(grid@, picks), cells),
    ensures
        cells.to_set() == picks.to_set(),
        cells.no_duplicates(),
        cells.len() == picks.to_set().len(),
        cells.len() <= picks.len(),
{
    let after = with_gaps(grid@, picks);
    assert forall|cell: Cell| differs_at(grid@, after, cell) <==> picks.contains(cell) by {
        if picks.contains(cell) {
            let k = choose|k: int| 0 <= k < picks.len() && picks[k] == cell;
            assert(grid.in_bounds(picks[k].row as int, picks[k].col as int));
        }
        assert(Cell { row: cell.row as int as usize, col: cell.col as int as usize } == cell);
    }
    assert forall|cell: Cell| cells.to_set().contains(cell) <==> picks.to_set().contains(cell) by {
        if cells.contains(cell) {
            let k = choose|k: int| 0 <= k < cells.len() && cells[k] == cell;
            assert(differs_at(grid@, after, cells[k]));
        }
    }
    assert(cells.to_set() =~= picks.to_set());
    cells.unique_seq_to_set();
    picks.lemma_cardinality_of_set();
}

/// Builds a puzzle from its settings: the solved grid with every row
/// shuffled, the selection grid with its gaps, and the hints.
///
/// Fails with `ExhaustedLineSpace` exactly when the settings ask for more
/// hints on an axis than the axis has lines.
pub fn build_puzzle(settings: &Settings, rng: &mut StdRng) -> (built: Result<Puzzle, PuzzleError>)
    requires
        settings.playable(),
    ensures
        match built {
            Ok(puzzle) => {
                &&& settings.hints_fit()
                &&& puzzle.data.well_formed()
                &&& puzzle.data.rows() == settings.row_tile_count
                &&& puzzle.data.cols() == settings.col_tile_count
                &&& rows_permuted(
                    canonical_cells(settings.row_tile_count as nat, settings.col_tile_count as nat),
                    puzzle.data@,
                )
                &&& cells_complete(puzzle.data@)
                &&& puzzle.selected.well_formed()
                &&& puzzle.selected.same_shape(&puzzle.data)
                &&& gaps_injected(&puzzle.data, &puzzle.selected, settings.gap_count)
                &&& is_hint_set(
                    puzzle.hints.0@,
                    requested(settings.row_hint_count),
                    requested(settings.col_hint_count),
                    &puzzle.data,
                )
            },
            Err(error) => error == PuzzleError::ExhaustedLineSpace && !settings.hints_fit(),
        },
{
    let row_tile_count: usize = settings.row_tile_count as usize;
    let col_tile_count: usize = settings.col_tile_count as usize;

    let mut matrix = Matrix2D::new(row_tile_count, col_tile_count);
    let ghost solved = matrix@;
    matrix.shuffle(rng);
    proof {
        lemma_canonical_cells_are_complete(row_tile_count as nat, col_tile_count as nat);
        lemma_permuted_rows_stay_complete(solved, matrix@);
    }

    let mut selection_matrix = matrix.clone();
    set_selection_gaps(&mut selection_matrix, settings.gap_count, rng);

    match create_hints(settings.row_hint_count, settings.col_hint_count, &matrix, rng) {
        Ok(hints) => Ok(Puzzle { data: matrix, selected: selection_matrix, hints }),
        Err(error) => Err(error),
    }
}

} // verus!
