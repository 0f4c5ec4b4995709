use vstd::prelude::*;

use crate::grid::Grid;

verus! {

/// Walks the cells of one row, left to right.
pub struct RowIter<'a, T> {
    grid: &'a Grid<T>,
    current: usize,
    end: usize,
}

impl<'a, T> RowIter<'a, T> {
    #[verifier::type_invariant]
    spec fn inv(&self) -> bool {
        self.current <= self.end <= self.grid.cells().len()
    }

    /// The cells not yet handed out.
    pub closed spec fn remaining(&self) -> Seq<T> {
        self.grid.cells().subrange(self.current as int, self.end as int)
    }

    /// Walks the row of offset `index`, from its first cell.
    pub fn new(grid: &'a Grid<T>, index: usize) -> (r: RowIter<'a, T>)
        requires
            index < grid.cells().len(),
        ensures
            r.remaining() == grid.row_cells(index as int / grid.ncols()),
    {
        proof {
            use_type_invariant(grid);
        }
        let row_start = crate::grid::row_start_index(grid, index);
        RowIter { grid, current: row_start, end: row_start + grid.columns() }
    }

    /// Walks every cell of the grid, in row-major order.
    pub fn all(grid: &'a Grid<T>) -> (r: RowIter<'a, T>)
        ensures
            r.remaining() == grid.cells(),
    {
        let r = RowIter { grid, current: 0, end: grid.size() };
        proof {
            assert(r.remaining() =~= grid.cells());
        }
        r
    }

    /// Walks nothing.
    pub fn noop(grid: &'a Grid<T>) -> (r: RowIter<'a, T>)
        ensures
            r.remaining().len() == 0,
    {
        RowIter { grid, current: 0, end: 0 }
    }

    /// The next cell, or `None` after the last.
    pub fn next(&mut self) -> (r: Option<&'a T>)
        ensures
            old(self).remaining().len() == 0 ==> r is None && final(self).remaining() == old(self).remaining(),
            old(self).remaining().len() > 0 ==> r == Some(&old(self).remaining()[0])
                && final(self).remaining() == old(self).remaining().drop_first(),
    {
        proof {
            use_type_invariant(&*self);
        }
        if self.current < self.end {
            let i = self.current;
            self.current = self.current + 1;
            proof {
                assert(self.remaining() =~= old(self).remaining().drop_first());
            }
            Some(self.grid.cell_ref(i))
        } else {
            None
        }
    }
}

/// Walks the cells of one row, left to right, for writing.
pub struct MutRowIter<'a, T> {
    grid: &'a mut Grid<T>,
    current: usize,
    end: usize,
}

impl<'a, T> MutRowIter<'a, T> {
    #[verifier::type_invariant]
    spec fn inv(&self) -> bool {
        self.current <= self.end <= self.grid.cells().len()
    }

    /// The grid as the walk has left it so far.
    pub closed spec fn grid_view(&self) -> Grid<T> {
        *self.grid
    }

    /// The borrow of the grid that the walk writes through; the grid that the borrow
    /// ends with is `*final(self.target())`.
    pub closed spec fn target(&self) -> &'a mut Grid<T> {
        self.grid
    }

    /// The offsets not yet handed out.
    pub closed spec fn positions(&self) -> Seq<int> {
        Seq::new((self.end - self.current) as nat, |k: int| self.current + k)
    }

    /// Once the walk is over, the borrowed grid ends as the walk left it.
    pub proof fn lemma_finished(&self)
        requires
            has_resolved(*self),
        ensures
            *final(self.target()) == self.grid_view(),
    {
    }

    /// Walks the row of offset `index`, from its first cell.
    pub fn new(grid: &'a mut Grid<T>, index: usize) -> (r: MutRowIter<'a, T>)
        requires
            index < old(grid).cells().len(),
        ensures
            r.grid_view() == *old(grid),
            *final(r.target()) == *final(grid),
            r.positions() == Seq::new(
                old(grid).ncols() as nat,
                |k: int| (index as int / old(grid).ncols()) * old(grid).ncols() + k,
            ),
    {
        proof {
            use_type_invariant(&*grid);
        }
        let row_start = crate::grid::row_start_index(grid, index);
        let end = row_start + grid.columns();
        let r = MutRowIter { grid, current: row_start, end };
        proof {
            assert(r.positions() =~= Seq::new(
                old(grid).ncols() as nat,
                |k: int| (index as int / old(grid).ncols()) * old(grid).ncols() + k,
            ));
        }
        r
    }

    /// Walks every cell of the grid, in row-major order.
    pub fn all(grid: &'a mut Grid<T>) -> (r: MutRowIter<'a, T>)
        ensures
            r.grid_view() == *old(grid),
            *final(r.target()) == *final(grid),
            r.positions() == Seq::new(old(grid).cells().len(), |k: int| k),
    {
        let end = grid.size();
        let r = MutRowIter { grid, current: 0, end };
        proof {
            assert(r.positions() =~= Seq::new(old(grid).cells().len(), |k: int| k));
        }
        r
    }

    /// Walks nothing.
    pub fn noop(grid: &'a mut Grid<T>) -> (r: MutRowIter<'a, T>)
        ensures
            r.grid_view() == *old(grid),
            *final(r.target()) == *final(grid),
            r.positions().len() == 0,
    {
        MutRowIter { grid, current: 0, end: 0 }
    }

    /// The next cell, for writing, or `None` after the last.
    pub fn next(&mut self) -> (r: Option<&mut T>)
        ensures
            old(self).positions().len() == 0 ==> r is None && final(self).grid_view() == old(self).grid_view()
                && final(self).positions() == old(self).positions(),
            old(self).positions().len() > 0 ==> {
                let i = old(self).positions()[0];
                &&& r is Some
                &&& *r->Some_0 == old(self).grid_view().cells()[i]
                &&& final(self).grid_view().written(&old(self).grid_view(), i, *final(r->Some_0))
                &&& final(self).positions() == old(self).positions().drop_first()
            },
            *final(final(self).target()) == *final(old(self).target()),
    {
        proof {
            use_type_invariant(&*self);
        }
        if self.current < self.end {
            let i = self.current;
            self.current = self.current + 1;
            proof {
                assert(self.positions() =~= old(self).positions().drop_first());
            }
            Some(self.grid.cell_mut(i))
        } else {
            None
        }
    }
}

} // verus!
