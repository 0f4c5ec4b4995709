use vstd::prelude::*;

use crate::grid::{valid_shape, Grid, GridOptions};
use crate::index::offset_of_xy;

verus! {

/// Which cell of the grid the logical coordinate `(0, 0)` names.
#[derive(Debug, Clone, Copy, PartialEq, Eq, Structural)]
pub enum Origin {
    UpperLeft,
    UpperRight,
    Center,
    LowerLeft,
    LowerRight,
}

impl Default for Origin {
    fn default() -> (r: Origin)
        ensures
            r == Origin::UpperLeft,
    {
        Origin::UpperLeft
    }
}

/// The smallest and largest logical x of a grid with this origin.
pub open spec fn x_range(rows: int, cols: int, origin: Origin) -> (int, int) {
    match origin {
        Origin::UpperLeft | Origin::LowerLeft => (0, cols - 1),
        Origin::UpperRight | Origin::LowerRight => (-(cols - 1), 0),
        Origin::Center => (-(cols / 2), cols / 2),
    }
}

/// The smallest and largest logical y of a grid with these options.
pub open spec fn y_range(rows: int, cols: int, o: GridOptions) -> (int, int) {
    let (lo, hi) = match o.origin {
        Origin::UpperLeft | Origin::UpperRight => (-(rows - 1), 0),
        Origin::LowerLeft | Origin::LowerRight => (0, rows - 1),
        Origin::Center => (-(rows / 2), rows / 2),
    };
    if o.inverted_y {
        (-hi, -lo)
    } else {
        (lo, hi)
    }
}

/// A logical coordinate names a cell exactly when it lies within the ranges.
pub proof fn lemma_ranges(rows: int, cols: int, o: GridOptions, x: int, y: int)
    requires
        valid_shape(rows, cols, o),
    ensures
        offset_of_xy(rows, cols, o, x, y) is Some <==> x_range(rows, cols, o.origin).0 <= x <= x_range(
            rows,
            cols,
            o.origin,
        ).1 && y_range(rows, cols, o).0 <= y <= y_range(rows, cols, o).1,
{
}

impl Origin {
    /// The largest logical x of the grid.
    pub(crate) fn max_x<T>(&self, grid: &Grid<T>) -> (r: isize)
        requires
            *self == grid.opts().origin,
        ensures
            r == x_range(grid.nrows(), grid.ncols(), *self).1,
    {
        proof {
            use_type_invariant(grid);
        }
        match self {
            Origin::Center => (grid.cols / 2) as isize,
            Origin::LowerLeft | Origin::UpperLeft => grid.cols as isize - 1,
            Origin::LowerRight | Origin::UpperRight => 0,
        }
    }

    /// The smallest logical x of the grid.
    pub(crate) fn min_x<T>(&self, grid: &Grid<T>) -> (r: isize)
        requires
            *self == grid.opts().origin,
        ensures
            r == x_range(grid.nrows(), grid.ncols(), *self).0,
    {
        proof {
            use_type_invariant(grid);
        }
        match self {
            Origin::Center => -((grid.cols / 2) as isize),
            Origin::LowerLeft | Origin::UpperLeft => 0,
            Origin::LowerRight | Origin::UpperRight => 1 - grid.cols as isize,
        }
    }

    /// The largest logical y of the grid.
    pub(crate) fn max_y<T>(&self, grid: &Grid<T>) -> (r: isize)
        requires
            *self == grid.opts().origin,
        ensures
            r == y_range(grid.nrows(), grid.ncols(), grid.opts()).1,
    {
        proof {
            use_type_invariant(grid);
        }
        let inverted = grid.options.inverted_y;
        match self {
            Origin::Center => (grid.rows / 2) as isize,
            Origin::LowerLeft | Origin::LowerRight => if inverted {
                0
            } else {
                grid.rows as isize - 1
            },
            Origin::UpperLeft | Origin::UpperRight => if inverted {
                grid.rows as isize - 1
            } else {
                0
            },
        }
    }

    /// The smallest logical y of the grid.
    pub(crate) fn min_y<T>(&self, grid: &Grid<T>) -> (r: isize)
        requires
            *self == grid.opts().origin,
        ensures
            r == y_range(grid.nrows(), grid.ncols(), grid.opts()).0,
    {
        proof {
            use_type_invariant(grid);
        }
        let inverted = grid.options.inverted_y;
        match self {
            Origin::Center => -((grid.rows / 2) as isize),
            Origin::LowerLeft | Origin::LowerRight => if inverted {
                1 - grid.rows as isize
            } else {
                0
            },
            Origin::UpperLeft | Origin::UpperRight => if inverted {
                0
            } else {
                1 - grid.rows as isize
            },
        }
    }
}

} // verus!
