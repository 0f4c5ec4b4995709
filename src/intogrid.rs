use vstd::prelude::*;

use crate::error::GridError;
use crate::grid::{Grid, GridOptions};

verus! {

/// Grids hold fewer cells than this.
pub const MAX_CELLS: usize = 2147483647;

/// Whether a grid of this many rows and columns stays under the cell ceiling.
pub open spec fn size_ok(rows: int, cols: int) -> bool {
    rows * cols < MAX_CELLS
}

/// A grid with at least one row and one column under the cell ceiling has fewer rows
/// and fewer columns than the ceiling too.
pub proof fn lemma_each_below_ceiling(rows: int, cols: int)
    requires
        1 <= rows,
        1 <= cols,
        size_ok(rows, cols),
    ensures
        rows < MAX_CELLS,
        cols < MAX_CELLS,
{
    assert(rows <= rows * cols && cols <= rows * cols) by (nonlinear_arith)
        requires
            1 <= rows,
            1 <= cols,
    ;
}

/// Checks that `rows` by `cols` cells stay under the ceiling, without overflowing,
/// and returns their number.
pub(crate) fn row_col_length_check(rows: usize, cols: usize) -> (r: Result<usize, GridError>)
    ensures
        match r {
            Ok(n) => size_ok(rows as int, cols as int) && n == rows * cols,
            Err(e) => !size_ok(rows as int, cols as int) && e == GridError::ExcessiveSize,
        },
{
    let size = match rows.checked_mul(cols) {
        Some(s) => s,
        None => {
            return Err(GridError::ExcessiveSize);
        },
    };
    if size >= MAX_CELLS {
        Err(GridError::ExcessiveSize)
    } else {
        Ok(size)
    }
}

/// Input from which a grid with the default options can be built.
pub trait IntoGrid<T>: Sized {
    /// The number of rows and columns the input describes, or the error it makes.
    spec fn shape(&self) -> Result<(int, int), GridError>;

    /// Whether `cells`, in row-major order, are the cells the input describes.
    spec fn holds(&self, cells: Seq<T>) -> bool;

    /// Builds the grid, with the default options.
    fn into_grid(self) -> (r: Result<Grid<T>, GridError>)
        ensures
            match r {
                Ok(g) => {
                    &&& self.shape() == Ok::<(int, int), GridError>((g.nrows(), g.ncols()))
                    &&& self.holds(g.cells())
                    &&& g.opts() == GridOptions::default_spec()
                },
                Err(e) => self.shape() == Err::<(int, int), GridError>(e),
            },
    ;
}

/// The error, if any, for a grid of `rows` rows of `cols` cells: neither may be zero,
/// and the number of cells must stay under the ceiling.
pub open spec fn shape_of(rows: int, cols: int) -> Result<(int, int), GridError> {
    if rows == 0 || cols == 0 {
        Err(GridError::InvalidSize)
    } else if !size_ok(rows, cols) {
        Err(GridError::ExcessiveSize)
    } else {
        Ok((rows, cols))
    }
}

/// The rows of a nested vector, as sequences.
pub open spec fn rows_of<T>(v: Seq<Vec<T>>) -> Seq<Seq<T>> {
    v.map_values(|r: Vec<T>| r@)
}

/// A vector of rows: every row must have as many cells as the first.
impl<T> IntoGrid<T> for Vec<Vec<T>> {
    open spec fn shape(&self) -> Result<(int, int), GridError> {
        if self@.len() == 0 {
            Err(GridError::InvalidSize)
        } else if shape_of(self@.len() as int, self@[0]@.len() as int) is Err {
            shape_of(self@.len() as int, self@[0]@.len() as int)
        } else if exists|i: int| 0 <= i < self@.len() && #[trigger] self@[i]@.len() != self@[0]@.len() {
            Err(GridError::RowSizeMismatch)
        } else {
            Ok((self@.len() as int, self@[0]@.len() as int))
        }
    }

    open spec fn holds(&self, cells: Seq<T>) -> bool {
        cells == rows_of(self@).flatten()
    }

    fn into_grid(self) -> (r: Result<Grid<T>, GridError>) {
        let rows = self.len();
        if rows == 0 {
            return Err(GridError::InvalidSize);
        }
        let cols = self[0].len();
        if cols == 0 {
            return Err(GridError::InvalidSize);
        }
        let total = match row_col_length_check(rows, cols) {
            Ok(n) => n,
            Err(e) => {
                return Err(e);
            },
        };
        proof {
            lemma_each_below_ceiling(rows as int, cols as int);
        }
        let mut i: usize = 0;
        while i < rows
            invariant
                rows == self@.len(),
                cols == self@[0]@.len(),
                size_ok(rows as int, cols as int),
                rows > 0,
                cols > 0,
                0 <= i <= rows,
                forall|j: int| 0 <= j < i ==> #[trigger] self@[j]@.len() == cols,
            decreases rows - i,
        {
            if self[i].len() != cols {
                proof {
                    assert(self@[i as int]@.len() != self@[0]@.len());
                }
                return Err(GridError::RowSizeMismatch);
            }
            i += 1;
        }
        let ghost input = self@;
        let mut outer = self;
        let mut grid: Vec<T> = Vec::with_capacity(total);
        let mut i: usize = 0;
        while i < rows
            invariant
                rows == input.len(),
                outer@.len() == rows,
                0 <= i <= rows,
                total == rows * cols,
                forall|j: int| 0 <= j < rows ==> #[trigger] input[j]@.len() == cols,
                forall|j: int| i <= j < rows ==> #[trigger] outer@[j] == input[j],
                grid@ == rows_of(input.take(i as int)).flatten(),
                grid@.len() == i * cols,
            decreases rows - i,
        {
            let mut row: Vec<T> = Vec::new();
            std::mem::swap(&mut outer[i], &mut row);
            proof {
                assert(input.take(i + 1) =~= input.take(i as int).push(input[i as int]));
                assert(rows_of(input.take(i + 1)) =~= rows_of(input.take(i as int)).push(input[i as int]@));
                rows_of(input.take(i as int)).lemma_flatten_push(input[i as int]@);
                assert((i + 1) * cols == i * cols + cols) by (nonlinear_arith);
            }
            grid.append(&mut row);
            i += 1;
        }
        proof {
            assert(input.take(rows as int) =~= input);
        }
        Ok(Grid::create(grid, rows, cols, None))
    }
}

/// A row pattern and a number of rows: the pattern is repeated on every row.
impl<T: Clone> IntoGrid<T> for (&Vec<T>, usize) {
    open spec fn shape(&self) -> Result<(int, int), GridError> {
        shape_of(self.1 as int, self.0@.len() as int)
    }

    open spec fn holds(&self, cells: Seq<T>) -> bool {
        repeats(self.0@, self.1 as int, cells)
    }

    fn into_grid(self) -> (r: Result<Grid<T>, GridError>) {
        _convert1d(self)
    }
}

/// A row pattern and a number of rows: the pattern is repeated on every row.
impl<T: Clone> IntoGrid<T> for (Vec<T>, usize) {
    open spec fn shape(&self) -> Result<(int, int), GridError> {
        shape_of(self.1 as int, self.0@.len() as int)
    }

    open spec fn holds(&self, cells: Seq<T>) -> bool {
        repeats(self.0@, self.1 as int, cells)
    }

    fn into_grid(self) -> (r: Result<Grid<T>, GridError>) {
        _convert1d((&self.0, self.1))
    }
}

/// A number of columns, a number of rows and a value that fills every cell.
impl<T: Clone> IntoGrid<T> for (usize, usize, T) {
    open spec fn shape(&self) -> Result<(int, int), GridError> {
        shape_of(self.1 as int, self.0 as int)
    }

    open spec fn holds(&self, cells: Seq<T>) -> bool {
        &&& cells.len() == self.1 * self.0
        &&& forall|k: int| 0 <= k < cells.len() ==> cloned::<T>(self.2, #[trigger] cells[k])
    }

    fn into_grid(self) -> (r: Result<Grid<T>, GridError>) {
        if self.0 == 0 || self.1 == 0 {
            return Err(GridError::InvalidSize);
        }
        let total = match row_col_length_check(self.1, self.0) {
            Ok(n) => n,
            Err(e) => {
                return Err(e);
            },
        };
        proof {
            lemma_each_below_ceiling(self.1 as int, self.0 as int);
        }
        let items = vec![self.2; total];
        Ok(Grid::create(items, self.1, self.0, None))
    }
}

/// Whether `cells` are `rows` copies of `pattern`, one after the other.
pub open spec fn repeats<T: Clone>(pattern: Seq<T>, rows: int, cells: Seq<T>) -> bool {
    &&& cells.len() == rows * pattern.len()
    &&& forall|k: int| 0 <= k < cells.len() ==> cloned::<T>(pattern[k % (pattern.len() as int)], #[trigger] cells[k])
}

/// Repeats the row pattern `items.0` on `items.1` rows.
fn _convert1d<T: Clone>(items: (&Vec<T>, usize)) -> (r: Result<Grid<T>, GridError>)
    ensures
        match r {
            Ok(g) => {
                &&& shape_of(items.1 as int, items.0@.len() as int) == Ok::<(int, int), GridError>(
                    (g.nrows(), g.ncols()),
                )
                &&& repeats(items.0@, items.1 as int, g.cells())
                &&& g.opts() == GridOptions::default_spec()
            },
            Err(e) => shape_of(items.1 as int, items.0@.len() as int) == Err::<(int, int), GridError>(e),
        },
{
    let cols = items.0.len();
    if cols == 0 || items.1 == 0 {
        return Err(GridError::InvalidSize);
    }
    let total = match row_col_length_check(items.1, cols) {
        Ok(n) => n,
        Err(e) => {
            return Err(e);
        },
    };
    proof {
        lemma_each_below_ceiling(items.1 as int, cols as int);
    }
    let mut vec: Vec<T> = Vec::with_capacity(total);
    let mut r: usize = 0;
    while r < items.1
        invariant
            cols == items.0@.len(),
            1 <= cols,
            total == items.1 * cols,
            0 <= r <= items.1,
            vec@.len() == r * cols,
            forall|k: int| 0 <= k < vec@.len() ==> cloned::<T>(items.0@[k % cols as int], #[trigger] vec@[k]),
        decreases items.1 - r,
    {
        let mut row = items.0.clone();
        proof {
            assert((r + 1) * cols == r * cols + cols) by (nonlinear_arith);
            assert forall|m: int| 0 <= m < cols implies (#[trigger] (r * cols + m)) % (cols as int) == m by {
                vstd::arithmetic::div_mod::lemma_fundamental_div_mod_converse(
                    r * cols + m,
                    cols as int,
                    r as int,
                    m,
                );
            }
        }
        let ghost before = vec@;
        vec.append(&mut row);
        proof {
            assert forall|k: int| 0 <= k < vec@.len() implies cloned::<T>(
                items.0@[k % cols as int],
                #[trigger] vec@[k],
            ) by {
                if k >= before.len() {
                    let m = k - r * cols;
                    assert(k == r * cols + m);
                }
            }
        }
        r += 1;
    }
    Ok(Grid::create(vec, items.1, cols, None))
}

} // verus!
