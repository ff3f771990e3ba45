//! A row-major grid, and the grid of connection costs between contexts.

use vstd::prelude::*;

verus! {

/// A grid of `rows` by `cols` cells, stored row after row.
#[derive(Debug)]
pub struct FlatMatrix<T: Default + Copy> {
    rows: usize,
    cols: usize,
    values: Vec<T>,
}

/// The product of two sizes that are each within a grid is within the grid.
pub proof fn lemma_cell_in_grid(rows: int, cols: int, row: int, col: int)
    requires
        0 <= row < rows,
        0 <= col < cols,
    ensures
        0 <= row * cols + col < rows * cols,
        row * cols + cols <= rows * cols,
        0 <= row * cols,
        0 <= rows * cols,
{
    assert(0 <= rows * cols) by (nonlinear_arith)
        requires
            0 <= rows,
            0 <= cols,
    ;
    assert(row * cols + cols == (row + 1) * cols) by (nonlinear_arith);
    assert((row + 1) * cols <= rows * cols) by (nonlinear_arith)
        requires
            row + 1 <= rows,
            0 <= cols,
    ;
    assert(0 <= row * cols) by (nonlinear_arith)
        requires
            0 <= row,
            0 <= cols,
    ;
}

impl<T: Default + Copy> FlatMatrix<T> {
    pub closed spec fn rows(&self) -> nat {
        self.rows as nat
    }

    pub closed spec fn cols(&self) -> nat {
        self.cols as nat
    }

    /// The cells, row after row.
    pub closed spec fn cells(&self) -> Seq<T> {
        self.values@
    }

    /// The grid holds one cell for each pair of a row and a column.
    #[verifier::type_invariant]
    pub closed spec fn wf(&self) -> bool {
        self.values@.len() == (self.rows as int) * (self.cols as int)
    }

    /// The cell at `row` and `col`.
    pub open spec fn at(&self, row: int, col: int) -> T
        recommends
            0 <= row < self.rows(),
            0 <= col < self.cols(),
    {
        self.cells()[row * self.cols() + col]
    }

    /// A grid whose every cell holds `T`'s default value.
    pub fn new(rows: usize, cols: usize) -> (matrix: Self)
        requires
            rows * cols <= usize::MAX,
        ensures
            matrix.rows() == rows,
            matrix.cols() == cols,
            matrix.cells().len() == rows * cols,
            forall|i: int|
                0 <= i < rows * cols ==> call_ensures(T::default, (), #[trigger] matrix.cells()[i]),
    {
        let count: usize = rows * cols;
        let mut values: Vec<T> = Vec::new();
        let mut i: usize = 0;
        while i < count
            invariant
                i <= count,
                values.len() == i,
                forall|k: int| 0 <= k < i ==> call_ensures(T::default, (), #[trigger] values@[k]),
            decreases count - i,
        {
            values.push(T::default());
            i += 1;
        }
        Self { rows, cols, values }
    }

    /// A grid over cells that are already laid out row after row, where
    /// their number fits the two sizes.
    pub fn from_values(rows: usize, cols: usize, values: Vec<T>) -> (matrix: Option<Self>)
        ensures
            matrix is Some <==> values.len() == rows * cols,
            matrix matches Some(m) ==> m.rows() == rows && m.cols() == cols && m.cells()
                == values@,
    {
        match rows.checked_mul(cols) {
            Some(count) => {
                if count == values.len() {
                    Some(Self { rows, cols, values })
                } else {
                    None
                }
            },
            None => None,
        }
    }

    pub fn row_count(&self) -> (rows: usize)
        ensures
            rows == self.rows(),
    {
        self.rows
    }

    pub fn col_count(&self) -> (cols: usize)
        ensures
            cols == self.cols(),
    {
        self.cols
    }

    /// The cells, row after row: one for each pair of a row and a column.
    pub fn values(&self) -> (values: &[T])
        ensures
            values@ == self.cells(),
            values@.len() == self.rows() * self.cols(),
    {
        proof {
            use_type_invariant(self);
        }
        self.values.as_slice()
    }

    pub fn set(&mut self, row: usize, col: usize, value: T)
        requires
            row < old(self).rows(),
            col < old(self).cols(),
        ensures
            final(self).rows() == old(self).rows(),
            final(self).cols() == old(self).cols(),
            final(self).cells() == old(self).cells().update(row * old(self).cols() + col, value),
    {
        let count: usize = self.values.len();
        proof {
            use_type_invariant(&*self);
            lemma_cell_in_grid(self.rows as int, self.cols as int, row as int, col as int);
        }
        let index: usize = row * self.cols + col;
        self.values[index] = value;
    }

    pub fn get(&self, row: usize, col: usize) -> (cell: &T)
        requires
            row < self.rows(),
            col < self.cols(),
        ensures
            *cell == self.at(row as int, col as int),
    {
        let count: usize = self.values.len();
        proof {
            use_type_invariant(&*self);
            lemma_cell_in_grid(self.rows as int, self.cols as int, row as int, col as int);
        }
        &self.values[row * self.cols + col]
    }

    pub fn get_cloned(&self, row: usize, col: usize) -> (cell: T)
        requires
            row < self.rows(),
            col < self.cols(),
        ensures
            cell == self.at(row as int, col as int),
    {
        *self.get(row, col)
    }

    /// The cells of one row, in the order of the columns.
    pub fn get_row(&self, row: usize) -> (cells: &[T])
        requires
            row < self.rows(),
        ensures
            cells@ == self.cells().subrange(row * self.cols(), row * self.cols() + self.cols()),
    {
        let count: usize = self.values.len();
        proof {
            use_type_invariant(self);
            if self.cols > 0 {
                lemma_cell_in_grid(self.rows as int, self.cols as int, row as int, 0);
            } else {
                assert(row * self.cols == 0) by (nonlinear_arith)
                    requires
                        self.cols == 0,
                ;
            }
        }
        let start: usize = row * self.cols;
        &self.values[start..start + self.cols]
    }
}

/// The cost of connecting one context to the next, for every pair of contexts.
#[derive(Debug)]
pub struct CostMatrix {
    matrix: FlatMatrix<i16>,
}

impl CostMatrix {
    /// The grid of costs: a row for each context on the left of a
    /// boundary, a column for each context on its right.
    pub closed spec fn grid(&self) -> FlatMatrix<i16> {
        self.matrix
    }

    /// Whether the grid has a cell for `right_id` followed by `left_id`.
    pub open spec fn covers(&self, right_id: u16, left_id: u16) -> bool {
        right_id < self.grid().rows() && left_id < self.grid().cols()
    }

    /// The cost of `left_id` coming directly after `right_id`.
    pub open spec fn cost(&self, right_id: u16, left_id: u16) -> i16 {
        self.grid().at(right_id as int, left_id as int)
    }

    pub fn new(matrix: FlatMatrix<i16>) -> (costs: Self)
        ensures
            costs.grid() == matrix,
    {
        Self { matrix }
    }

    pub fn grid_ref(&self) -> (grid: &FlatMatrix<i16>)
        ensures
            *grid == self.grid(),
    {
        &self.matrix
    }

    pub fn get(&self, right_id: u16, left_id: u16) -> (cost: i16)
        requires
            self.covers(right_id, left_id),
        ensures
            cost == self.cost(right_id, left_id),
    {
        self.matrix.get_cloned(right_id as usize, left_id as usize)
    }

    /// Whether every pair of contexts below `bound` has a cell.
    pub fn covers_below(&self, bound: usize) -> (covered: bool)
        ensures
            covered == (bound <= self.grid().rows() && bound <= self.grid().cols()),
    {
        bound <= self.matrix.row_count() && bound <= self.matrix.col_count()
    }
}

} // verus!
