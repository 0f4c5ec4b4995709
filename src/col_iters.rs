use vstd::prelude::*;

use crate::grid::Grid;

verus! {

/// Walks the cells of one column, top to bottom.
pub struct ColIter<'a, T> {
    grid: &'a Grid<T>,
    col: usize,
    row: usize,
}

/// Offset `row * cols + col` lies on a grid of `rows` rows of `cols` cells.
proof fn lemma_cell_in_grid(rows: int, cols: int, row: int, col: int)
    requires
        0 <= row < rows,
        0 <= col < cols,
    ensures
        0 <= row * cols + col < rows * cols,
{
    assert(0 <= row * cols + col < rows * cols) by (nonlinear_arith)
        requires
            0 <= row < rows,
            0 <= col < cols,
    ;
}

impl<'a, T> ColIter<'a, T> {
    #[verifier::type_invariant]
    spec fn inv(&self) -> bool {
        self.col < self.grid.ncols() && self.row <= self.grid.nrows()
    }

    /// The cells not yet handed out.
    pub closed spec fn remaining(&self) -> Seq<T> {
        Seq::new(
            (self.grid.nrows() - self.row) as nat,
            |k: int| self.grid.cells()[(self.row + k) * self.grid.ncols() + self.col],
        )
    }

    /// Walks the column of offset `index`, from its top cell.
    pub fn new(grid: &'a Grid<T>, index: usize) -> (r: ColIter<'a, T>)
        requires
            index < grid.cells().len(),
        ensures
            r.remaining() == grid.col_cells(index as int % grid.ncols()),
    {
        let col = crate::grid::col_start_index(grid, index);
        let r = ColIter { grid, col, row: 0 };
        proof {
            assert(r.remaining() =~= grid.col_cells(index as int % grid.ncols()));
        }
        r
    }

    /// Walks nothing.
    pub fn noop(grid: &'a Grid<T>) -> (r: ColIter<'a, T>)
        ensures
            r.remaining().len() == 0,
    {
        proof {
            use_type_invariant(grid);
        }
        ColIter { grid, col: 0, row: grid.rows() }
    }

    /// The next cell, or `None` after the last.
    pub fn next(&mut self) -> (r: Option<&'a T>)
        ensures
            old(self).remaining().len() == 0 ==> r is None && final(self).remaining() == old(self).remaining(),
            old(self).remaining().len() > 0 ==> r == Some(&old(self).remaining()[0])
                && final(self).remaining() == old(self).remaining().drop_first(),
    {
        proof {
            use_type_invariant(&*self);
            use_type_invariant(self.grid);
        }
        if self.row < self.grid.rows() {
            proof {
                lemma_cell_in_grid(self.grid.nrows(), self.grid.ncols(), self.row as int, self.col as int);
            }
            let i = self.row * self.grid.columns() + self.col;
            self.row = self.row + 1;
            proof {
                assert(self.remaining() =~= old(self).remaining().drop_first());
            }
            Some(self.grid.cell_ref(i))
        } else {
            None
        }
    }
}

/// Walks the cells of one column, top to bottom, for writing.
pub struct MutColIter<'a, T> {
    grid: &'a mut Grid<T>,
    col: usize,
    row: usize,
}

impl<'a, T> MutColIter<'a, T> {
    #[verifier::type_invariant]
    spec fn inv(&self) -> bool {
        self.col < self.grid.ncols() && self.row <= self.grid.nrows()
    }

    /// The grid as the walk has left it so far.
    pub closed spec fn grid_view(&self) -> Grid<T> {
        *self.grid
    }

    /// The borrow of the grid that the walk writes through; the grid that the borrow
    /// ends with is `*final(self.target())`.
    pub closed spec fn target(&self) -> &'a mut Grid<T> {
        self.grid
    }

    /// The offsets not yet handed out.
    pub closed spec fn positions(&self) -> Seq<int> {
        Seq::new(
            (self.grid.nrows() - self.row) as nat,
            |k: int| (self.row + k) * self.grid.ncols() + self.col,
        )
    }

    /// Once the walk is over, the borrowed grid ends as the walk left it.
    pub proof fn lemma_finished(&self)
        requires
            has_resolved(*self),
        ensures
            *final(self.target()) == self.grid_view(),
    {
    }

    /// Walks the column of offset `index`, from its top cell.
    pub fn new(grid: &'a mut Grid<T>, index: usize) -> (r: MutColIter<'a, T>)
        requires
            index < old(grid).cells().len(),
        ensures
            r.grid_view() == *old(grid),
            *final(r.target()) == *final(grid),
            r.positions() == Seq::new(
                old(grid).nrows() as nat,
                |k: int| k * old(grid).ncols() + index as int % old(grid).ncols(),
            ),
    {
        let col = crate::grid::col_start_index(grid, index);
        let r = MutColIter { grid, col, row: 0 };
        proof {
            assert(r.positions() =~= Seq::new(
                old(grid).nrows() as nat,
                |k: int| k * old(grid).ncols() + index as int % old(grid).ncols(),
            ));
        }
        r
    }

    /// Walks nothing.
    pub fn noop(grid: &'a mut Grid<T>) -> (r: MutColIter<'a, T>)
        ensures
            r.grid_view() == *old(grid),
            *final(r.target()) == *final(grid),
            r.positions().len() == 0,
    {
        proof {
            use_type_invariant(&*grid);
        }
        let rows = grid.rows();
        MutColIter { grid, col: 0, row: rows }
    }

    /// The next cell, for writing, or `None` after the last.
    pub fn next(&mut self) -> (r: Option<&mut T>)
        ensures
            old(self).positions().len() == 0 ==> r is None && final(self).grid_view() == old(self).grid_view()
                && final(self).positions() == old(self).positions(),
            old(self).positions().len() > 0 ==> {
                let i = old(self).positions()[0];
                &&& r is Some
                &&& *r->Some_0 == old(self).grid_view().cells()[i]
                &&& final(self).grid_view().written(&old(self).grid_view(), i, *final(r->Some_0))
                &&& final(self).positions() == old(self).positions().drop_first()
            },
            *final(final(self).target()) == *final(old(self).target()),
    {
        proof {
            use_type_invariant(&*self);
            use_type_invariant(&*self.grid);
        }
        if self.row < self.grid.rows() {
            proof {
                lemma_cell_in_grid(self.grid.nrows(), self.grid.ncols(), self.row as int, self.col as int);
            }
            let i = self.row * self.grid.columns() + self.col;
            self.row = self.row + 1;
            proof {
                assert(self.positions() =~= old(self).positions().drop_first());
            }
            Some(self.grid.cell_mut(i))
        } else {
            None
        }
    }
}

} // verus!
