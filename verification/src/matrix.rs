//! The grid: a rectangular matrix of signed integers with access by
//! coordinates that cannot leave the grid, row and column extraction,
//! row-local shuffling and the question whether any cell is still empty.

use crate::random::shuffle_values;
use rand::rngs::StdRng;
use vstd::prelude::*;
use vstd::std_specs::cmp::PartialEqSpecImpl;

verus! {

/// The value that marks a cell as empty.
pub const EMPTY_CELL: i32 = 0;

/// A two-dimensional grid of signed integers, stored row by row.
///
/// Every row holds exactly `cols()` cells and there are exactly `rows()`
/// rows. The fields are private so that this shape can never be broken from
/// outside, and every operation is proved to preserve it.
#[derive(Debug)]
pub struct Matrix2D {
    data: Vec<Vec<i32>>,
    rows: usize,
    cols: usize,
}

impl View for Matrix2D {
    type V = Seq<Seq<i32>>;

    /// The cells of the grid, row by row.
    closed spec fn view(&self) -> Seq<Seq<i32>> {
        Seq::new(self.data@.len(), |r: int| self.data@[r]@)
    }
}

/// The cells of a grid in which every row reads `1, 2, ..., cols`.
pub open spec fn canonical_cells(rows: nat, cols: nat) -> Seq<Seq<i32>> {
    Seq::new(rows, |r: int| Seq::new(cols, |c: int| (c + 1) as i32))
}

/// The cells of a grid that holds `value` everywhere.
pub open spec fn uniform_cells(rows: nat, cols: nat, value: i32) -> Seq<Seq<i32>> {
    Seq::new(rows, |r: int| Seq::new(cols, |c: int| value))
}

/// Column `col` of `cells`, read from the first row to the last.
pub open spec fn column_of(cells: Seq<Seq<i32>>, col: int) -> Seq<i32> {
    Seq::new(cells.len(), |r: int| cells[r][col])
}

/// `cells` holds no empty cell.
pub open spec fn cells_complete(cells: Seq<Seq<i32>>) -> bool {
    forall|r: int, c: int|
        0 <= r < cells.len() && 0 <= c < cells[r].len() ==> #[trigger] cells[r][c] != EMPTY_CELL
}

/// `after` has the rows of `before`, each with its values rearranged.
pub open spec fn rows_permuted(before: Seq<Seq<i32>>, after: Seq<Seq<i32>>) -> bool {
    &&& after.len() == before.len()
    &&& forall|r: int|
        0 <= r < before.len() ==> (#[trigger] after[r]).to_multiset() == before[r].to_multiset()
}

/// The solved grid before shuffling has no empty cell.
pub proof fn lemma_canonical_cells_are_complete(rows: nat, cols: nat)
    requires
        cols <= i32::MAX,
    ensures
        cells_complete(canonical_cells(rows, cols)),
{
}

/// Rearranging the values within rows neither fills nor empties a cell: a
/// grid without empty cells has none after its rows were shuffled.
pub proof fn lemma_permuted_rows_stay_complete(before: Seq<Seq<i32>>, after: Seq<Seq<i32>>)
    requires
        rows_permuted(before, after),
        cells_complete(before),
    ensures
        cells_complete(after),
{
    assert forall|r: int, c: int| 0 <= r < after.len() && 0 <= c < after[r].len() implies #[trigger]
        after[r][c] != EMPTY_CELL by {
        let value = after[r][c];
        assert(after[r].contains(value));
        vstd::seq_lib::to_multiset_contains(after[r], value);
        vstd::seq_lib::to_multiset_contains(before[r], value);
        let at = choose|k: int| 0 <= k < before[r].len() && before[r][k] == value;
        assert(before[r][at] != EMPTY_CELL);
    }
}

/// The storage has `rows` rows of `cols` cells each.
spec fn rectangular(data: Seq<Vec<i32>>, rows: int, cols: int) -> bool {
    &&& data.len() == rows
    &&& forall|r: int| 0 <= r < data.len() ==> (#[trigger] data[r])@.len() == cols
}

/// Overwrites one cell of the raw storage and leaves every other cell alone.
fn store_cell(data: &mut Vec<Vec<i32>>, row: usize, col: usize, value: i32)
    requires
        row < old(data)@.len(),
        col < old(data)@[row as int]@.len(),
    ensures
        final(data)@.len() == old(data)@.len(),
        final(data)@[row as int]@ == old(data)@[row as int]@.update(col as int, value),
        forall|r: int|
            0 <= r < old(data)@.len() && r != row ==> #[trigger] final(data)@[r] == old(data)@[r],
    no_unwind
{
    data[row][col] = value;
}

impl Matrix2D {
    #[verifier::type_invariant]
    spec fn shape_holds(&self) -> bool {
        rectangular(self.data@, self.rows as int, self.cols as int)
    }

    /// The number of rows, as contracts speak of it.
    pub closed spec fn spec_rows(&self) -> usize {
        self.rows
    }

    /// The number of columns, as contracts speak of it.
    pub closed spec fn spec_cols(&self) -> usize {
        self.cols
    }

    /// The cells form a rectangle of `rows()` by `cols()`.
    ///
    /// This holds of every grid that executable code can hold; each
    /// operation states it of its result so that callers can rely on it.
    pub open spec fn well_formed(&self) -> bool {
        &&& self@.len() == self.rows()
        &&& forall|r: int| 0 <= r < self@.len() ==> (#[trigger] self@[r]).len() == self.cols()
    }

    /// `(row, col)` names a cell of the grid.
    pub open spec fn in_bounds(&self, row: int, col: int) -> bool {
        0 <= row < self.rows() && 0 <= col < self.cols()
    }

    /// What `get` returns for `(row, col)`.
    pub open spec fn spec_get(&self, row: int, col: int) -> Option<i32> {
        if self.in_bounds(row, col) {
            Some(self@[row][col])
        } else {
            None
        }
    }

    /// Two grids have the same number of rows and of columns.
    pub open spec fn same_shape(&self, other: &Matrix2D) -> bool {
        self.rows() == other.rows() && self.cols() == other.cols()
    }

    /// The number of rows.
    #[verifier::when_used_as_spec(spec_rows)]
    pub fn rows(&self) -> (n: usize)
        ensures
            n == self.rows(),
            self.well_formed(),
    {
        proof {
            use_type_invariant(self);
        }
        self.rows
    }

    /// The number of columns.
    #[verifier::when_used_as_spec(spec_cols)]
    pub fn cols(&self) -> (n: usize)
        ensures
            n == self.cols(),
            self.well_formed(),
    {
        proof {
            use_type_invariant(self);
        }
        self.cols
    }

    /// Creates the solved grid: every row reads `1, 2, ..., cols`.
    ///
    /// A cell holds a 32-bit value, so `cols` may not exceed `i32::MAX`.
    pub fn new(rows: usize, cols: usize) -> (grid: Self)
        requires
            cols <= i32::MAX,
        ensures
            grid.rows() == rows,
            grid.cols() == cols,
            grid.well_formed(),
            grid@ == canonical_cells(rows as nat, cols as nat),
            forall|r: int, c: int| grid.in_bounds(r, c) ==> grid.spec_get(r, c) == Some((c + 1) as i32),
    {
        let mut data: Vec<Vec<i32>> = Vec::new();
        for r in 0..rows
            invariant
                cols <= i32::MAX,
                data@.len() == r,
                forall|i: int|
                    0 <= i < r ==> (#[trigger] data@[i])@ == Seq::new(
                        cols as nat,
                        |c: int| (c + 1) as i32,
                    ),
        {
            let mut line: Vec<i32> = Vec::new();
            for c in 0..cols
                invariant
                    cols <= i32::MAX,
                    line@.len() == c,
                    forall|j: int| 0 <= j < c ==> #[trigger] line@[j] == (j + 1) as i32,
            {
                line.push((c + 1) as i32);
            }
            assert(line@ =~= Seq::new(cols as nat, |c: int| (c + 1) as i32));
            data.push(line);
        }
        let grid = Matrix2D { data, rows, cols };
        assert(grid@ =~= canonical_cells(rows as nat, cols as nat));
        grid
    }

    /// Creates a grid that holds `default` in every cell.
    pub fn new_with_default(rows: usize, cols: usize, default: i32) -> (grid: Self)
        ensures
            grid.rows() == rows,
            grid.cols() == cols,
            grid.well_formed(),
            grid@ == uniform_cells(rows as nat, cols as nat, default),
    {
        let mut data: Vec<Vec<i32>> = Vec::new();
        for r in 0..rows
            invariant
                data@.len() == r,
                forall|i: int|
                    0 <= i < r ==> (#[trigger] data@[i])@ == Seq::new(cols as nat, |c: int| default),
        {
            let mut line: Vec<i32> = Vec::new();
            for c in 0..cols
                invariant
                    line@.len() == c,
                    forall|j: int| 0 <= j < c ==> #[trigger] line@[j] == default,
            {
                line.push(default);
            }
            assert(line@ =~= Seq::new(cols as nat, |c: int| default));
            data.push(line);
        }
        let grid = Matrix2D { data, rows, cols };
        assert(grid@ =~= uniform_cells(rows as nat, cols as nat, default));
        grid
    }

    /// Row `row`, from its first column to its last.
    pub fn get_row(&self, row: usize) -> (line: &Vec<i32>)
        requires
            row < self.rows(),
        ensures
            line@ == self@[row as int],
            line@.len() == self.cols(),
            self.well_formed(),
    {
        proof {
            use_type_invariant(self);
        }
        &self.data[row]
    }

    /// Column `col`, from the first row to the last, as a fresh vector.
    ///
    /// A grid without rows has only empty columns, whatever `col` is.
    pub fn get_column(&self, col: usize) -> (line: Vec<i32>)
        requires
            self.rows() == 0 || col < self.cols(),
        ensures
            line@ == column_of(self@, col as int),
            line@.len() == self.rows(),
            self.well_formed(),
    {
        proof {
            use_type_invariant(self);
        }
        let mut line: Vec<i32> = Vec::new();
        for r in 0..self.rows
            invariant
                rectangular(self.data@, self.rows as int, self.cols as int),
                self.rows == 0 || col < self.cols,
                line@.len() == r,
                forall|i: int| 0 <= i < r ==> #[trigger] line@[i] == self.data@[i]@[col as int],
        {
            line.push(self.data[r][col]);
        }
        assert(line@ =~= column_of(self@, col as int));
        line
    }

    /// The value of the cell at `(row, col)`, or `None` where the grid has
    /// no such cell.
    pub fn get(&self, row: usize, col: usize) -> (value: Option<i32>)
        ensures
            value == self.spec_get(row as int, col as int),
            self.well_formed(),
    {
        proof {
            use_type_invariant(self);
        }
        if row < self.rows && col < self.cols {
            Some(self.data[row][col])
        } else {
            None
        }
    }

    /// Writes `value` to the cell at `(row, col)` and reports whether the
    /// grid has such a cell. Out-of-range coordinates leave the grid as it
    /// was.
    pub fn set(&mut self, row: usize, col: usize, value: i32) -> (written: bool)
        ensures
            written == old(self).in_bounds(row as int, col as int),
            final(self).same_shape(old(self)),
            final(self).well_formed(),
            written ==> final(self)@ == old(self)@.update(
                row as int,
                old(self)@[row as int].update(col as int, value),
            ),
            !written ==> final(self)@ == old(self)@,
    {
        proof {
            use_type_invariant(&*self);
        }
        if row < self.rows && col < self.cols {
            store_cell(&mut self.data, row, col, value);
            assert(self@ =~= old(self)@.update(
                row as int,
                old(self)@[row as int].update(col as int, value),
            ));
            true
        } else {
            false
        }
    }

    /// Rearranges the values of every row in place, each row on its own.
    ///
    /// A row keeps its values; only their columns change.
    pub fn shuffle(&mut self, rng: &mut StdRng)
        ensures
            final(self).same_shape(old(self)),
            final(self).well_formed(),
            rows_permuted(old(self)@, final(self)@),
    {
        proof {
            use_type_invariant(&*self);
        }
        let rows: usize = self.rows;
        let cols: usize = self.cols;
        // The rows are shuffled outside the grid, which is empty meanwhile:
        // whatever the random source does, the grid keeps its shape.
        let mut taken = Matrix2D { data: Vec::new(), rows: 0, cols: 0 };
        core::mem::swap(self, &mut taken);
        let mut data: Vec<Vec<i32>> = taken.data;
        for r in 0..rows
            invariant
                rectangular(data@, rows as int, cols as int),
                rectangular(old(self).data@, rows as int, cols as int),
                forall|i: int|
                    0 <= i < r ==> (#[trigger] data@[i])@.to_multiset() == old(
                        self,
                    ).data@[i]@.to_multiset(),
                forall|i: int| r <= i < rows ==> #[trigger] data@[i] == old(self).data@[i],
        {
            let ghost before = data@;
            shuffle_values(&mut data[r], rng);
            proof {
                data@[r as int]@.to_multiset_ensures();
                before[r as int]@.to_multiset_ensures();
            }
        }
        *self = Matrix2D { data, rows, cols };
    }

    /// Whether no cell is empty.
    pub fn is_complete(&self) -> (complete: bool)
        ensures
            complete == cells_complete(self@),
            self.well_formed(),
    {
        proof {
            use_type_invariant(self);
        }
        for r in 0..self.rows
            invariant
                rectangular(self.data@, self.rows as int, self.cols as int),
                forall|i: int, j: int|
                    0 <= i < r && 0 <= j < self.cols ==> #[trigger] self.data@[i]@[j] != EMPTY_CELL,
        {
            for c in 0..self.cols
                invariant
                    r < self.rows,
                    rectangular(self.data@, self.rows as int, self.cols as int),
                    forall|i: int, j: int|
                        0 <= i < r && 0 <= j < self.cols ==> #[trigger] self.data@[i]@[j]
                            != EMPTY_CELL,
                    forall|j: int| 0 <= j < c ==> #[trigger] self.data@[r as int]@[j] != EMPTY_CELL,
            {
                if self.data[r][c] == EMPTY_CELL {
                    assert(self@[r as int][c as int] == EMPTY_CELL);
                    return false;
                }
            }
        }
        assert(cells_complete(self@)) by {
            assert forall|r: int, c: int|
                0 <= r < self@.len() && 0 <= c < self@[r].len() implies #[trigger] self@[r][c]
                != EMPTY_CELL by {
                assert(self.data@[r]@[c] != EMPTY_CELL);
            }
        }
        true
    }
}

impl Clone for Matrix2D {
    /// A copy with the same shape and the same value in every cell.
    fn clone(&self) -> (copy: Self)
        ensures
            copy@ == self@,
            copy.same_shape(self),
            copy.well_formed(),
    {
        proof {
            use_type_invariant(self);
        }
        let mut data: Vec<Vec<i32>> = Vec::new();
        for r in 0..self.rows
            invariant
                rectangular(self.data@, self.rows as int, self.cols as int),
                data@.len() == r,
                forall|i: int| 0 <= i < r ==> (#[trigger] data@[i])@ == self.data@[i]@,
        {
            let line = self.data[r].clone();
            assert(line@ =~= self.data@[r as int]@);
            data.push(line);
        }
        let copy = Matrix2D { data, rows: self.rows, cols: self.cols };
        assert(copy@ =~= self@);
        copy
    }
}

impl PartialEq for Matrix2D {
    /// Two grids are equal when they have the same shape and hold the same
    /// value in every cell.
    fn eq(&self, other: &Self) -> (equal: bool) {
        proof {
            use_type_invariant(self);
            use_type_invariant(other);
        }
        if self.rows != other.rows || self.cols != other.cols {
            return false;
        }
        for r in 0..self.rows
            invariant
                self.rows == other.rows,
                self.cols == other.cols,
                rectangular(self.data@, self.rows as int, self.cols as int),
                rectangular(other.data@, self.rows as int, self.cols as int),
                forall|i: int| 0 <= i < r ==> (#[trigger] self.data@[i])@ == other.data@[i]@,
        {
            for c in 0..self.cols
                invariant
                    r < self.rows,
                    self.rows == other.rows,
                    self.cols == other.cols,
                    rectangular(self.data@, self.rows as int, self.cols as int),
                    rectangular(other.data@, self.rows as int, self.cols as int),
                    forall|j: int|
                        0 <= j < c ==> #[trigger] self.data@[r as int]@[j] == other.data@[r as int]@[j],
            {
                if self.data[r][c] != other.data[r][c] {
                    assert(self@[r as int][c as int] != other@[r as int][c as int]);
                    return false;
                }
            }
            assert(self.data@[r as int]@ =~= other.data@[r as int]@);
        }
        assert(self@ =~= other@);
        true
    }
}

impl PartialEqSpecImpl for Matrix2D {
    open spec fn obeys_eq_spec() -> bool {
        true
    }

    open spec fn eq_spec(&self, other: &Matrix2D) -> bool {
        self.same_shape(other) && self@ == other@
    }
}

impl Eq for Matrix2D {

}

} // verus!
