use vstd::prelude::*;

use crate::grid::{ceiling, Grid};
use crate::regions::{ceil_div, lemma_region_parts, nrant_of, valid_divisor, window_slot};

verus! {

/// Walks the window of one region, row by row: `ceil(columns / divisor)` slots per row
/// and `ceil(rows / divisor)` rows. A slot past the right or bottom edge of the grid
/// yields `None`, so every region yields the same number of slots.
pub struct NrantIterator<'a, T> {
    grid: &'a Grid<T>,
    current: usize,
    start: usize,
    rwidth: usize,
    rheight: usize,
}

impl<'a, T> NrantIterator<'a, T> {
    #[verifier::type_invariant]
    spec fn inv(&self) -> bool {
        &&& 1 <= self.rwidth <= self.grid.ncols()
        &&& self.rheight <= self.grid.nrows()
        &&& self.start < self.grid.cells().len()
        &&& self.current <= self.rwidth * self.rheight
        &&& self.rwidth * self.rheight <= self.grid.cells().len()
    }

    /// The slots not yet handed out.
    pub closed spec fn remaining(&self) -> Seq<Option<&'a T>> {
        Seq::new(
            (self.rwidth * self.rheight - self.current) as nat,
            |k: int|
                self.grid.cell(
                    window_slot(
                        self.grid.nrows(),
                        self.grid.ncols(),
                        self.rwidth as int,
                        self.start as int,
                        self.current + k,
                    ),
                ),
        )
    }

    /// Walks the region of offset `index` when the grid is cut into `divisor` by
    /// `divisor` regions.
    pub fn new(grid: &'a Grid<T>, divisor: usize, index: usize) -> (r: NrantIterator<'a, T>)
        requires
            index < grid.cells().len(),
            valid_divisor(grid.nrows(), grid.ncols(), divisor as int),
        ensures
            r.remaining() == grid.region_cells(divisor as int, index as int),
    {
        proof {
            use_type_invariant(grid);
            lemma_region_parts(grid.nrows(), grid.ncols(), divisor as int, index as int);
            lemma_ceil_at_most(grid.nrows(), divisor as int);
            lemma_ceil_at_most(grid.ncols(), divisor as int);
            let rw = ceil_div(grid.ncols(), divisor as int);
            let rh = ceil_div(grid.nrows(), divisor as int);
            assert(0 <= rw * rh <= grid.nrows() * grid.ncols()) by (nonlinear_arith)
                requires
                    1 <= rw <= grid.ncols(),
                    1 <= rh <= grid.nrows(),
            ;
        }
        let rwidth = ceiling(grid.columns(), divisor);
        let rheight = ceiling(grid.rows(), divisor);
        let start = grid.nrant_start(index, divisor);
        let r = NrantIterator { grid, current: 0, start, rwidth, rheight };
        proof {
            assert(r.remaining() =~= grid.region_cells(divisor as int, index as int));
        }
        r
    }

    /// Walks nothing.
    pub fn noop(grid: &'a Grid<T>) -> (r: NrantIterator<'a, T>)
        ensures
            r.remaining().len() == 0,
    {
        proof {
            use_type_invariant(grid);
            assert(1 <= grid.nrows() * grid.ncols()) by (nonlinear_arith)
                requires
                    1 <= grid.nrows(),
                    1 <= grid.ncols(),
            ;
        }
        NrantIterator { grid, current: 0, start: 0, rwidth: 1, rheight: 0 }
    }

    /// The next slot, or `None` after the last. A slot holds `None` where the window
    /// runs past the edge of the grid.
    pub fn next(&mut self) -> (r: Option<Option<&'a T>>)
        ensures
            old(self).remaining().len() == 0 ==> r is None && final(self).remaining() == old(self).remaining(),
            old(self).remaining().len() > 0 ==> r == Some(old(self).remaining()[0])
                && final(self).remaining() == old(self).remaining().drop_first(),
    {
        proof {
            use_type_invariant(&*self);
            use_type_invariant(self.grid);
        }
        if self.current >= self.rwidth * self.rheight {
            return None;
        }
        let row_offset = self.current / self.rwidth;
        let col_offset = self.current % self.rwidth;
        proof {
            lemma_window_offset(
                self.grid.nrows(),
                self.grid.ncols(),
                self.rwidth as int,
                self.rheight as int,
                self.start as int,
                self.current as int,
            );
        }
        if col_offset + (self.start % self.grid.columns()) >= self.grid.columns() {
            self.current += 1;
            proof {
                assert(self.remaining() =~= old(self).remaining().drop_first());
            }
            return Some(None);
        }
        let index = self.start + row_offset * self.grid.columns() + col_offset;
        self.current += 1;
        proof {
            assert(self.remaining() =~= old(self).remaining().drop_first());
        }
        Some(self.grid.get(index))
    }
}

/// Rounding `a / d` up gives at most `a`.
proof fn lemma_ceil_at_most(a: int, d: int)
    requires
        1 <= a,
        1 <= d,
    ensures
        1 <= ceil_div(a, d) <= a,
{
    vstd::arithmetic::div_mod::lemma_fundamental_div_mod(a + d - 1, d);
    vstd::arithmetic::div_mod::lemma_mod_bound(a + d - 1, d);
    let q = (a + d - 1) / d;
    if q > a {
        assert(d * q >= d * (a + 1)) by (nonlinear_arith)
            requires
                q >= a + 1,
                d >= 1,
        ;
        assert(d * (a + 1) >= a + d) by (nonlinear_arith)
            requires
                a >= 1,
                d >= 1,
        ;
    }
    if q < 1 {
        assert(d * q <= 0) by (nonlinear_arith)
            requires
                q <= 0,
                d >= 1,
        ;
    }
}

/// The offset of a slot inside the grid's columns stays within `usize`.
proof fn lemma_window_offset(rows: int, cols: int, rw: int, rh: int, start: int, k: int)
    requires
        1 <= rw <= cols,
        0 <= rh <= rows,
        0 <= start < rows * cols,
        0 <= k < rw * rh,
        rows * cols < crate::intogrid::MAX_CELLS,
    ensures
        0 <= k / rw < rh,
        0 <= k % rw < rw,
        0 <= (k / rw) * cols,
        start + (k / rw) * cols + k % rw < 2 * crate::intogrid::MAX_CELLS,
{
    vstd::arithmetic::div_mod::lemma_fundamental_div_mod(k, rw);
    vstd::arithmetic::div_mod::lemma_mod_bound(k, rw);
    vstd::arithmetic::div_mod::lemma_div_pos_is_pos(k, rw);
    if k / rw >= rh {
        assert(rw * (k / rw) >= rw * rh) by (nonlinear_arith)
            requires
                k / rw >= rh,
                rw >= 1,
        ;
    }
    assert(0 <= (k / rw) * cols && (k / rw) * cols + cols <= rows * cols) by (nonlinear_arith)
        requires
            0 <= k / rw < rh,
            rh <= rows,
            1 <= cols,
    ;
}

} // verus!
