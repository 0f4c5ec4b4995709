use vstd::prelude::*;

use crate::col_iters::{ColIter, MutColIter};
use crate::error::GridError;
use crate::index::Index;
use crate::intogrid::{lemma_each_below_ceiling, row_col_length_check, shape_of, size_ok, IntoGrid, MAX_CELLS};
use crate::neighbors::{as_found, left_of, lemma_step_in_grid, raw_down, raw_up, right_of, step, Step};
pub use crate::origin::Origin;
use crate::origin::{x_range, y_range};
use crate::quaditers::NrantIterator;
use crate::regions::{ceil_div, lemma_region_parts, nrant_of, region_start, valid_divisor};
use crate::row_iters::{MutRowIter, RowIter};
use crate::xyneightbor::{AllAroundNeighbor, XyNeighbor};

verus! {

/// How logical coordinates map onto the grid, and how neighbours are found.
#[derive(Debug, Clone, Copy, PartialEq, Eq, Structural)]
pub struct GridOptions {
    pub origin: Origin,
    pub inverted_y: bool,
    pub neighbor_ybased: bool,
    pub wrap_x: bool,
    pub wrap_y: bool,
}

impl GridOptions {
    /// The options a grid gets when none are given.
    pub open spec fn default_spec() -> GridOptions {
        GridOptions {
            origin: Origin::UpperLeft,
            inverted_y: true,
            neighbor_ybased: true,
            wrap_x: false,
            wrap_y: false,
        }
    }

    /// The given options, or the default ones.
    pub open spec fn or_default(o: Option<GridOptions>) -> GridOptions {
        match o {
            Some(opts) => opts,
            None => GridOptions::default_spec(),
        }
    }
}

impl Default for GridOptions {
    fn default() -> (r: GridOptions)
        ensures
            r == GridOptions::default_spec(),
    {
        GridOptions {
            origin: Origin::UpperLeft,
            inverted_y: true,
            neighbor_ybased: true,
            wrap_x: false,
            wrap_y: false,
        }
    }
}

/// The given options, or the default ones.
pub(crate) fn options_or_default(o: Option<GridOptions>) -> (r: GridOptions)
    ensures
        r == GridOptions::or_default(o),
{
    match o {
        Some(opts) => opts,
        None => GridOptions::default(),
    }
}

/// Whether a grid may have this shape under these options: at least one row and one
/// column, under the cell ceiling, and odd extents when the origin is the centre.
/// (Fewer rows and fewer columns than the ceiling follow from the rest; see
/// `lemma_each_below_ceiling`.)
pub open spec fn valid_shape(rows: int, cols: int, o: GridOptions) -> bool {
    &&& 1 <= rows
    &&& 1 <= cols
    &&& size_ok(rows, cols)
    &&& rows < MAX_CELLS
    &&& cols < MAX_CELLS
    &&& o.origin == Origin::Center ==> rows % 2 == 1 && cols % 2 == 1
}

/// A rectangular grid of cells stored row by row in one vector.
#[derive(Debug, PartialEq)]
pub struct Grid<T> {
    pub(crate) items: Vec<T>,
    pub(crate) rows: usize,
    pub(crate) cols: usize,
    pub(crate) options: GridOptions,
}

impl<T: Clone> Clone for Grid<T> {
    fn clone(&self) -> (r: Self) {
        proof {
            use_type_invariant(self);
        }
        Grid { items: self.items.clone(), rows: self.rows, cols: self.cols, options: self.options }
    }
}

impl<T> Grid<T> {
    #[verifier::type_invariant]
    pub(crate) open spec fn inv(&self) -> bool {
        &&& valid_shape(self.rows as int, self.cols as int, self.options)
        &&& self.items@.len() == self.rows * self.cols
    }

    /// The cells in row-major order.
    pub open(crate) spec fn cells(&self) -> Seq<T> {
        self.items@
    }

    /// The number of rows.
    pub open(crate) spec fn nrows(&self) -> int {
        self.rows as int
    }

    /// The number of columns.
    pub open(crate) spec fn ncols(&self) -> int {
        self.cols as int
    }

    /// The options the grid was built with.
    pub open(crate) spec fn opts(&self) -> GridOptions {
        self.options
    }

    /// The offset that `index` names in this grid, if any.
    pub open(crate) spec fn offset_of<I: Index>(&self, index: I) -> Option<int> {
        index.offset_in(self.nrows(), self.ncols(), self.opts())
    }

    /// One step from offset `i` of this grid.
    pub open(crate) spec fn step_from(&self, i: Option<int>, dir: Step) -> Option<int> {
        step(self.nrows(), self.ncols(), self.opts(), i, dir)
    }

    /// The cell at offset `i`, if there is one.
    pub open(crate) spec fn cell(&self, i: Option<int>) -> Option<&T> {
        match i {
            Some(k) => Some(&self.cells()[k]),
            None => None,
        }
    }

    /// Whether `self` is `before` with at most the cell at offset `i` replaced by `v`.
    pub open(crate) spec fn written(&self, before: &Grid<T>, i: int, v: T) -> bool {
        &&& self.nrows() == before.nrows()
        &&& self.ncols() == before.ncols()
        &&& self.opts() == before.opts()
        &&& self.cells() == before.cells().update(i, v)
    }

    /// Builds a grid from `items` (see `IntoGrid`) with `options`, or the default
    /// options when none are given. A centred grid needs an odd number of rows and of
    /// columns.
    pub fn new<I: IntoGrid<T>>(items: I, options: Option<GridOptions>) -> (r: Result<Self, GridError>)
        ensures
            match items.shape() {
                Err(e) => r == Err::<Self, GridError>(e),
                Ok(shape) => if valid_shape(shape.0, shape.1, GridOptions::or_default(options)) {
                    r matches Ok(g) && {
                        &&& g.nrows() == shape.0
                        &&& g.ncols() == shape.1
                        &&& items.holds(g.cells())
                        &&& g.opts() == GridOptions::or_default(options)
                    }
                } else {
                    r == Err::<Self, GridError>(GridError::InvalidSize)
                },
            },
    {
        let grid = match items.into_grid() {
            Ok(g) => g,
            Err(e) => {
                return Err(e);
            },
        };
        proof {
            use_type_invariant(&grid);
        }
        let options = options_or_default(options);
        if options.origin == Origin::Center && (grid.rows % 2 == 0 || grid.cols % 2 == 0) {
            return Err(GridError::InvalidSize);
        }
        let Grid { items, rows, cols, .. } = grid;
        Ok(Grid { items, rows, cols, options })
    }

    /// Wraps cells already checked against the shape and options.
    pub(crate) fn create(items: Vec<T>, rows: usize, cols: usize, options: Option<GridOptions>) -> (r: Grid<T>)
        requires
            valid_shape(rows as int, cols as int, GridOptions::or_default(options)),
            items@.len() == rows * cols,
        ensures
            r.cells() == items@,
            r.nrows() == rows,
            r.ncols() == cols,
            r.opts() == GridOptions::or_default(options),
    {
        Grid { items, rows, cols, options: options_or_default(options) }
    }

    /// Builds a grid from its cells in row-major order.
    pub fn new_from_1d(vec: Vec<T>, columns: usize, rows: usize, options: Option<GridOptions>) -> (r:
        Result<Self, GridError>)
        ensures
            match r {
                Ok(g) => {
                    &&& valid_shape(rows as int, columns as int, GridOptions::or_default(options))
                    &&& g.cells() == vec@
                    &&& g.nrows() == rows
                    &&& g.ncols() == columns
                    &&& g.opts() == GridOptions::or_default(options)
                },
                Err(e) => match shape_of(rows as int, columns as int) {
                    Err(shape_error) => e == shape_error,
                    Ok(_) => {
                        &&& e == GridError::InvalidSize
                        &&& !(valid_shape(rows as int, columns as int, GridOptions::or_default(options))
                            && vec@.len() == rows * columns)
                    },
                },
            },
    {
        if rows == 0 || columns == 0 {
            return Err(GridError::InvalidSize);
        }
        let total = match row_col_length_check(rows, columns) {
            Ok(n) => n,
            Err(e) => {
                return Err(e);
            },
        };
        proof {
            lemma_each_below_ceiling(rows as int, columns as int);
        }
        let options = options_or_default(options);
        if vec.len() != total {
            return Err(GridError::InvalidSize);
        }
        if options.origin == Origin::Center && (rows % 2 == 0 || columns % 2 == 0) {
            return Err(GridError::InvalidSize);
        }
        Ok(Grid { items: vec, rows, cols: columns, options })
    }

    /// The number of cells.
    pub fn size(&self) -> (r: usize)
        ensures
            r == self.nrows() * self.ncols(),
            r == self.cells().len(),
    {
        proof {
            use_type_invariant(self);
        }
        self.items.len()
    }

    /// The number of rows.
    pub fn rows(&self) -> (r: usize)
        ensures
            r == self.nrows(),
    {
        self.rows
    }

    /// The number of columns.
    pub fn columns(&self) -> (r: usize)
        ensures
            r == self.ncols(),
    {
        self.cols
    }

    /// Which cell the logical `(0, 0)` names.
    pub fn origin(&self) -> (r: Origin)
        ensures
            r == self.opts().origin,
    {
        self.options.origin
    }

    /// The cells of row `row`, left to right.
    pub open(crate) spec fn row_cells(&self, row: int) -> Seq<T> {
        self.cells().subrange(row * self.ncols(), row * self.ncols() + self.ncols())
    }

    /// The cells of column `col`, top to bottom.
    pub open(crate) spec fn col_cells(&self, col: int) -> Seq<T> {
        Seq::new(self.nrows() as nat, |k: int| self.cells()[k * self.ncols() + col])
    }

    /// The slots of the window of the region of offset `i`, for divisor `d`.
    pub open(crate) spec fn region_cells(&self, d: int, i: int) -> Seq<Option<&T>> {
        Seq::new(
            (ceil_div(self.ncols(), d) * ceil_div(self.nrows(), d)) as nat,
            |k: int|
                self.cell(
                    crate::regions::region_slot(
                        self.nrows(),
                        self.ncols(),
                        d,
                        nrant_of(self.nrows(), self.ncols(), d, i),
                        k,
                    ),
                ),
        )
    }

    /// The cell at offset `index`.
    pub(crate) fn cell_ref(&self, index: usize) -> (r: &T)
        requires
            index < self.cells().len(),
        ensures
            *r == self.cells()[index as int],
    {
        &self.items[index]
    }

    /// The cell at offset `index`, for writing.
    pub(crate) fn cell_mut(&mut self, index: usize) -> (r: &mut T)
        requires
            index < old(self).cells().len(),
        ensures
            *r == old(self).cells()[index as int],
            final(self).written(old(self), index as int, *final(r)),
        no_unwind
    {
        proof {
            use_type_invariant(&*self);
        }
        &mut self.items[index]
    }

    /// The cell that `index` names; `None` when it is off the grid.
    pub fn get<I: Index>(&self, index: I) -> (r: Option<&T>)
        ensures
            r == self.cell(self.offset_of(index)),
    {
        proof {
            use_type_invariant(self);
        }
        match index.grid_index(self) {
            Ok(i) => Some(&self.items[i]),
            Err(_) => None,
        }
    }

    /// The cell that `index` names, for writing; `None` when it is off the grid.
    pub fn get_mut<I: Index>(&mut self, index: I) -> (r: Option<&mut T>)
        ensures
            old(self).offset_of(index) is None ==> r is None && *final(self) == *old(self),
            old(self).offset_of(index) matches Some(i) ==> {
                &&& r is Some
                &&& *r->Some_0 == old(self).cells()[i]
                &&& final(self).written(old(self), i, *final(r->Some_0))
            },
    {
        proof {
            use_type_invariant(&*self);
        }
        match index.grid_index(self) {
            Ok(i) => Some(&mut self.items[i]),
            Err(_) => None,
        }
    }

    /// The cell above the one that `index` names; `None` when either is absent.
    pub fn get_up<I: Index>(&self, index: I) -> (r: Option<&T>)
        ensures
            r == self.cell(self.step_from(self.offset_of(index), Step::Up)),
    {
        proof {
            use_type_invariant(self);
        }
        match self.up_idx(index) {
            Ok(i) => Some(&self.items[i]),
            Err(_) => None,
        }
    }

    /// The cell below the one that `index` names; `None` when either is absent.
    pub fn get_down<I: Index>(&self, index: I) -> (r: Option<&T>)
        ensures
            r == self.cell(self.step_from(self.offset_of(index), Step::Down)),
    {
        proof {
            use_type_invariant(self);
        }
        match self.down_idx(index) {
            Ok(i) => Some(&self.items[i]),
            Err(_) => None,
        }
    }

    /// The cell to the left of the one that `index` names; `None` when either is absent.
    pub fn get_left<I: Index>(&self, index: I) -> (r: Option<&T>)
        ensures
            r == self.cell(self.step_from(self.offset_of(index), Step::Left)),
    {
        proof {
            use_type_invariant(self);
        }
        match self.left_idx(index) {
            Ok(i) => Some(&self.items[i]),
            Err(_) => None,
        }
    }

    /// The cell to the right of the one that `index` names; `None` when either is absent.
    pub fn get_right<I: Index>(&self, index: I) -> (r: Option<&T>)
        ensures
            r == self.cell(self.step_from(self.offset_of(index), Step::Right)),
    {
        proof {
            use_type_invariant(self);
        }
        match self.right_idx(index) {
            Ok(i) => Some(&self.items[i]),
            Err(_) => None,
        }
    }

    /// The cell above and to the left of the one that `index` names; `None` when either is absent.
    pub fn get_upleft<I: Index>(&self, index: I) -> (r: Option<&T>)
        ensures
            r == self.cell(self.step_from(self.step_from(self.offset_of(index), Step::Up), Step::Left)),
    {
        proof {
            use_type_invariant(self);
        }
        match self.upleft_idx(index) {
            Ok(i) => Some(&self.items[i]),
            Err(_) => None,
        }
    }

    /// The cell above and to the right of the one that `index` names; `None` when either is absent.
    pub fn get_upright<I: Index>(&self, index: I) -> (r: Option<&T>)
        ensures
            r == self.cell(self.step_from(self.step_from(self.offset_of(index), Step::Up), Step::Right)),
    {
        proof {
            use_type_invariant(self);
        }
        match self.upright_idx(index) {
            Ok(i) => Some(&self.items[i]),
            Err(_) => None,
        }
    }

    /// The cell below and to the left of the one that `index` names; `None` when either is absent.
    pub fn get_downleft<I: Index>(&self, index: I) -> (r: Option<&T>)
        ensures
            r == self.cell(self.step_from(self.step_from(self.offset_of(index), Step::Down), Step::Left)),
    {
        proof {
            use_type_invariant(self);
        }
        match self.downleft_idx(index) {
            Ok(i) => Some(&self.items[i]),
            Err(_) => None,
        }
    }

    /// The cell below and to the right of the one that `index` names; `None` when either is absent.
    pub fn get_downright<I: Index>(&self, index: I) -> (r: Option<&T>)
        ensures
            r == self.cell(self.step_from(self.step_from(self.offset_of(index), Step::Down), Step::Right)),
    {
        proof {
            use_type_invariant(self);
        }
        match self.downright_idx(index) {
            Ok(i) => Some(&self.items[i]),
            Err(_) => None,
        }
    }

    /// The cell above the one that `index` names, for writing; `None` when either
    /// is absent.
    pub fn get_up_mut<I: Index>(&mut self, index: I) -> (r: Option<&mut T>)
        ensures
            old(self).step_from(old(self).offset_of(index), Step::Up) is None ==> r is None && *final(self) == *old(self),
            old(self).step_from(old(self).offset_of(index), Step::Up) matches Some(i) ==> {
                &&& r is Some
                &&& *r->Some_0 == old(self).cells()[i]
                &&& final(self).written(old(self), i, *final(r->Some_0))
            },
    {
        proof {
            use_type_invariant(&*self);
        }
        match self.up_idx(index) {
            Ok(i) => Some(&mut self.items[i]),
            Err(_) => None,
        }
    }

    /// The cell below the one that `index` names, for writing; `None` when either
    /// is absent.
    pub fn get_down_mut<I: Index>(&mut self, index: I) -> (r: Option<&mut T>)
        ensures
            old(self).step_from(old(self).offset_of(index), Step::Down) is None ==> r is None && *final(self) == *old(self),
            old(self).step_from(old(self).offset_of(index), Step::Down) matches Some(i) ==> {
                &&& r is Some
                &&& *r->Some_0 == old(self).cells()[i]
                &&& final(self).written(old(self), i, *final(r->Some_0))
            },
    {
        proof {
            use_type_invariant(&*self);
        }
        match self.down_idx(index) {
            Ok(i) => Some(&mut self.items[i]),
            Err(_) => None,
        }
    }

    /// The cell to the left of the one that `index` names, for writing; `None` when either
    /// is absent.
    pub fn get_left_mut<I: Index>(&mut self, index: I) -> (r: Option<&mut T>)
        ensures
            old(self).step_from(old(self).offset_of(index), Step::Left) is None ==> r is None && *final(self) == *old(self),
            old(self).step_from(old(self).offset_of(index), Step::Left) matches Some(i) ==> {
                &&& r is Some
                &&& *r->Some_0 == old(self).cells()[i]
                &&& final(self).written(old(self), i, *final(r->Some_0))
            },
    {
        proof {
            use_type_invariant(&*self);
        }
        match self.left_idx(index) {
            Ok(i) => Some(&mut self.items[i]),
            Err(_) => None,
        }
    }

    /// The cell to the right of the one that `index` names, for writing; `None` when either
    /// is absent.
    pub fn get_right_mut<I: Index>(&mut self, index: I) -> (r: Option<&mut T>)
        ensures
            old(self).step_from(old(self).offset_of(index), Step::Right) is None ==> r is None && *final(self) == *old(self),
            old(self).step_from(old(self).offset_of(index), Step::Right) matches Some(i) ==> {
                &&& r is Some
                &&& *r->Some_0 == old(self).cells()[i]
                &&& final(self).written(old(self), i, *final(r->Some_0))
            },
    {
        proof {
            use_type_invariant(&*self);
        }
        match self.right_idx(index) {
            Ok(i) => Some(&mut self.items[i]),
            Err(_) => None,
        }
    }

    /// The cell above and to the left of the one that `index` names, for writing; `None` when either
    /// is absent.
    pub fn get_upleft_mut<I: Index>(&mut self, index: I) -> (r: Option<&mut T>)
        ensures
            old(self).step_from(old(self).step_from(old(self).offset_of(index), Step::Up), Step::Left) is None ==> r is None && *final(self) == *old(self),
            old(self).step_from(old(self).step_from(old(self).offset_of(index), Step::Up), Step::Left) matches Some(i) ==> {
                &&& r is Some
                &&& *r->Some_0 == old(self).cells()[i]
                &&& final(self).written(old(self), i, *final(r->Some_0))
            },
    {
        proof {
            use_type_invariant(&*self);
        }
        match self.upleft_idx(index) {
            Ok(i) => Some(&mut self.items[i]),
            Err(_) => None,
        }
    }

    /// The cell above and to the right of the one that `index` names, for writing; `None` when either
    /// is absent.
    pub fn get_upright_mut<I: Index>(&mut self, index: I) -> (r: Option<&mut T>)
        ensures
            old(self).step_from(old(self).step_from(old(self).offset_of(index), Step::Up), Step::Right) is None ==> r is None && *final(self) == *old(self),
            old(self).step_from(old(self).step_from(old(self).offset_of(index), Step::Up), Step::Right) matches Some(i) ==> {
                &&& r is Some
                &&& *r->Some_0 == old(self).cells()[i]
                &&& final(self).written(old(self), i, *final(r->Some_0))
            },
    {
        proof {
            use_type_invariant(&*self);
        }
        match self.upright_idx(index) {
            Ok(i) => Some(&mut self.items[i]),
            Err(_) => None,
        }
    }

    /// The cell below and to the left of the one that `index` names, for writing; `None` when either
    /// is absent.
    pub fn get_downleft_mut<I: Index>(&mut self, index: I) -> (r: Option<&mut T>)
        ensures
            old(self).step_from(old(self).step_from(old(self).offset_of(index), Step::Down), Step::Left) is None ==> r is None && *final(self) == *old(self),
            old(self).step_from(old(self).step_from(old(self).offset_of(index), Step::Down), Step::Left) matches Some(i) ==> {
                &&& r is Some
                &&& *r->Some_0 == old(self).cells()[i]
                &&& final(self).written(old(self), i, *final(r->Some_0))
            },
    {
        proof {
            use_type_invariant(&*self);
        }
        match self.downleft_idx(index) {
            Ok(i) => Some(&mut self.items[i]),
            Err(_) => None,
        }
    }

    /// The cell below and to the right of the one that `index` names, for writing; `None` when either
    /// is absent.
    pub fn get_downright_mut<I: Index>(&mut self, index: I) -> (r: Option<&mut T>)
        ensures
            old(self).step_from(old(self).step_from(old(self).offset_of(index), Step::Down), Step::Right) is None ==> r is None && *final(self) == *old(self),
            old(self).step_from(old(self).step_from(old(self).offset_of(index), Step::Down), Step::Right) matches Some(i) ==> {
                &&& r is Some
                &&& *r->Some_0 == old(self).cells()[i]
                &&& final(self).written(old(self), i, *final(r->Some_0))
            },
    {
        proof {
            use_type_invariant(&*self);
        }
        match self.downright_idx(index) {
            Ok(i) => Some(&mut self.items[i]),
            Err(_) => None,
        }
    }

    /// One storage row down from `index`, wrapping when `wrap_y` is set.
    fn actual_down_ind(&self, index: usize) -> (r: Result<usize, GridError>)
        requires
            index < self.cells().len(),
        ensures
            r == as_found(raw_down(self.nrows(), self.ncols(), self.opts(), index as int)),
            r matches Ok(j) ==> j < self.cells().len(),
            raw_down(self.nrows(), self.ncols(), self.opts(), index as int) matches Some(k) ==> 0 <= k < self.cells().len(),
    {
        proof {
            use_type_invariant(self);
            lemma_step_in_grid(self.nrows(), self.ncols(), self.opts(), index as int);
        }
        let res = index + self.cols;
        if res < self.size() {
            Ok(res)
        } else {
            if self.options.wrap_y {
                Ok(res - self.size())
            } else {
                Err(GridError::IndexOutOfBounds)
            }
        }
    }

    /// One storage row up from `index`, wrapping when `wrap_y` is set.
    fn actual_up_ind(&self, index: usize) -> (r: Result<usize, GridError>)
        requires
            index < self.cells().len(),
        ensures
            r == as_found(raw_up(self.nrows(), self.ncols(), self.opts(), index as int)),
            r matches Ok(j) ==> j < self.cells().len(),
            raw_up(self.nrows(), self.ncols(), self.opts(), index as int) matches Some(k) ==> 0 <= k < self.cells().len(),
    {
        proof {
            use_type_invariant(self);
            lemma_step_in_grid(self.nrows(), self.ncols(), self.opts(), index as int);
        }
        match index.checked_sub(self.cols) {
            Some(v) => Ok(v),
            None => {
                if self.options.wrap_y {
                    Ok(index + self.size() - self.cols)
                } else {
                    Err(GridError::IndexOutOfBounds)
                }
            },
        }
    }

    /// Whether "up" follows the logical y axis when the axis is inverted.
    fn neighbor_ybased_invert(&self) -> (r: bool)
        ensures
            r == self.opts().neighbor_ybased,
    {
        self.options.neighbor_ybased
    }

    /// Whether logical y grows opposite to the storage rows.
    fn is_inverted_y(&self) -> (r: bool)
        ensures
            r == self.opts().inverted_y,
    {
        self.options.inverted_y
    }

    /// One step up from the cell that `index` names (see `up_of`).
    fn up_idx<I: Index>(&self, index: I) -> (r: Result<usize, GridError>)
        ensures
            r == as_found(self.step_from(self.offset_of(index), Step::Up)),
            r matches Ok(j) ==> j < self.cells().len(),
            self.step_from(self.offset_of(index), Step::Up) matches Some(k) ==> 0 <= k < self.cells().len(),
    {
        proof {
            use_type_invariant(self);
        }
        let index = match index.grid_index(self) {
            Ok(i) => i,
            Err(e) => {
                return Err(e);
            },
        };
        proof {
            lemma_step_in_grid(self.nrows(), self.ncols(), self.opts(), index as int);
        }
        if self.is_inverted_y() && self.neighbor_ybased_invert() {
            self.actual_down_ind(index)
        } else {
            self.actual_up_ind(index)
        }
    }

    /// One step down from the cell that `index` names (see `down_of`).
    fn down_idx<I: Index>(&self, index: I) -> (r: Result<usize, GridError>)
        ensures
            r == as_found(self.step_from(self.offset_of(index), Step::Down)),
            r matches Ok(j) ==> j < self.cells().len(),
            self.step_from(self.offset_of(index), Step::Down) matches Some(k) ==> 0 <= k < self.cells().len(),
    {
        proof {
            use_type_invariant(self);
        }
        let index = match index.grid_index(self) {
            Ok(i) => i,
            Err(e) => {
                return Err(e);
            },
        };
        proof {
            lemma_step_in_grid(self.nrows(), self.ncols(), self.opts(), index as int);
        }
        if self.is_inverted_y() && self.neighbor_ybased_invert() {
            self.actual_up_ind(index)
        } else {
            self.actual_down_ind(index)
        }
    }

    /// One step left from the cell that `index` names, wrapping within the row when
    /// `wrap_x` is set.
    fn left_idx<I: Index>(&self, index: I) -> (r: Result<usize, GridError>)
        ensures
            r == as_found(self.step_from(self.offset_of(index), Step::Left)),
            r matches Ok(j) ==> j < self.cells().len(),
            self.step_from(self.offset_of(index), Step::Left) matches Some(k) ==> 0 <= k < self.cells().len(),
    {
        proof {
            use_type_invariant(self);
        }
        let index = match index.grid_index(self) {
            Ok(i) => i,
            Err(e) => {
                return Err(e);
            },
        };
        proof {
            lemma_step_in_grid(self.nrows(), self.ncols(), self.opts(), index as int);
        }
        if index == 0 || index % self.cols == 0 {
            if self.options.wrap_x {
                Ok(index + self.columns() - 1)
            } else {
                Err(GridError::IndexOutOfBounds)
            }
        } else {
            Ok(index - 1)
        }
    }

    /// One step right from the cell that `index` names, wrapping within the row when
    /// `wrap_x` is set.
    fn right_idx<I: Index>(&self, index: I) -> (r: Result<usize, GridError>)
        ensures
            r == as_found(self.step_from(self.offset_of(index), Step::Right)),
            r matches Ok(j) ==> j < self.cells().len(),
            self.step_from(self.offset_of(index), Step::Right) matches Some(k) ==> 0 <= k < self.cells().len(),
    {
        proof {
            use_type_invariant(self);
        }
        let index = match index.grid_index(self) {
            Ok(i) => i,
            Err(e) => {
                return Err(e);
            },
        };
        proof {
            lemma_step_in_grid(self.nrows(), self.ncols(), self.opts(), index as int);
            if index + 1 == self.nrows() * self.ncols() {
                vstd::arithmetic::div_mod::lemma_mod_multiples_basic(self.nrows(), self.ncols());
            }
        }
        let index = index + 1;
        if index == self.size() || index % self.cols == 0 {
            if self.options.wrap_x {
                Ok(index - self.columns())
            } else {
                Err(GridError::IndexOutOfBounds)
            }
        } else {
            Ok(index)
        }
    }

    /// One step up, then one step left; absent when either step is.
    fn upleft_idx<I: Index>(&self, index: I) -> (r: Result<usize, GridError>)
        ensures
            r == as_found(self.step_from(self.step_from(self.offset_of(index), Step::Up), Step::Left)),
            r matches Ok(j) ==> j < self.cells().len(),
            self.step_from(self.step_from(self.offset_of(index), Step::Up), Step::Left) matches Some(k) ==> 0 <= k < self.cells().len(),
    {
        proof {
            use_type_invariant(self);
        }
        let i = match self.up_idx(index) {
            Ok(i) => i,
            Err(e) => {
                return Err(e);
            },
        };
        self.left_idx(i)
    }

    /// One step up, then one step right; absent when either step is.
    fn upright_idx<I: Index>(&self, index: I) -> (r: Result<usize, GridError>)
        ensures
            r == as_found(self.step_from(self.step_from(self.offset_of(index), Step::Up), Step::Right)),
            r matches Ok(j) ==> j < self.cells().len(),
            self.step_from(self.step_from(self.offset_of(index), Step::Up), Step::Right) matches Some(k) ==> 0 <= k < self.cells().len(),
    {
        proof {
            use_type_invariant(self);
        }
        let i = match self.up_idx(index) {
            Ok(i) => i,
            Err(e) => {
                return Err(e);
            },
        };
        self.right_idx(i)
    }

    /// One step down, then one step left; absent when either step is.
    fn downleft_idx<I: Index>(&self, index: I) -> (r: Result<usize, GridError>)
        ensures
            r == as_found(self.step_from(self.step_from(self.offset_of(index), Step::Down), Step::Left)),
            r matches Ok(j) ==> j < self.cells().len(),
            self.step_from(self.step_from(self.offset_of(index), Step::Down), Step::Left) matches Some(k) ==> 0 <= k < self.cells().len(),
    {
        proof {
            use_type_invariant(self);
        }
        let i = match self.down_idx(index) {
            Ok(i) => i,
            Err(e) => {
                return Err(e);
            },
        };
        self.left_idx(i)
    }

    /// One step down, then one step right; absent when either step is.
    fn downright_idx<I: Index>(&self, index: I) -> (r: Result<usize, GridError>)
        ensures
            r == as_found(self.step_from(self.step_from(self.offset_of(index), Step::Down), Step::Right)),
            r matches Ok(j) ==> j < self.cells().len(),
            self.step_from(self.step_from(self.offset_of(index), Step::Down), Step::Right) matches Some(k) ==> 0 <= k < self.cells().len(),
    {
        proof {
            use_type_invariant(self);
        }
        let i = match self.down_idx(index) {
            Ok(i) => i,
            Err(e) => {
                return Err(e);
            },
        };
        self.right_idx(i)
    }

    /// Which of the `divisor * divisor` regions the cell that `index` names lies in.
    /// Regions have `ceil(rows / divisor)` rows and `ceil(columns / divisor)` columns,
    /// so those along the bottom and right edges may be smaller. A region number that
    /// does not fit in `usize` is reported as `ExcessiveSize`.
    pub fn nrant<I: Index>(&self, index: I, divisor: usize) -> (r: Result<usize, GridError>)
        ensures
            r == self.nrant_spec(self.offset_of(index), divisor as int),
    {
        proof {
            use_type_invariant(self);
        }
        if divisor < 1 || (divisor > self.rows() && divisor > self.columns()) {
            return Err(GridError::InvalidDivisionSize);
        }
        let index = match index.grid_index(self) {
            Ok(i) => i,
            Err(e) => {
                return Err(e);
            },
        };
        match self.region_of(index, divisor) {
            Some(n) => Ok(n),
            None => Err(GridError::ExcessiveSize),
        }
    }

    /// What `nrant` returns for offset `i` and divisor `d`.
    pub open(crate) spec fn nrant_spec(&self, i: Option<int>, d: int) -> Result<usize, GridError> {
        if !valid_divisor(self.nrows(), self.ncols(), d) {
            Err(GridError::InvalidDivisionSize)
        } else {
            match i {
                None => Err(GridError::IndexOutOfBounds),
                Some(k) => if nrant_of(self.nrows(), self.ncols(), d, k) <= usize::MAX {
                    Ok(nrant_of(self.nrows(), self.ncols(), d, k) as usize)
                } else {
                    Err(GridError::ExcessiveSize)
                },
            }
        }
    }

    /// The row block and the column block of offset `index`; the divisor is already
    /// checked.
    fn blocks_of(&self, index: usize, divisor: usize) -> (r: (usize, usize))
        requires
            index < self.cells().len(),
            valid_divisor(self.nrows(), self.ncols(), divisor as int),
        ensures
            r.0 == (index as int / self.ncols()) / ceil_div(self.nrows(), divisor as int),
            r.1 == (index as int % self.ncols()) / ceil_div(self.ncols(), divisor as int),
            r.0 < divisor,
            r.1 < divisor,
    {
        proof {
            use_type_invariant(self);
            lemma_region_parts(self.nrows(), self.ncols(), divisor as int, index as int);
        }
        let rheight = ceiling(self.rows(), divisor);
        let rwidth = ceiling(self.columns(), divisor);
        (index / self.columns() / rheight, (index % self.columns()) / rwidth)
    }

    /// The region of offset `index`, or `None` when its number does not fit in `usize`.
    fn region_of(&self, index: usize, divisor: usize) -> (r: Option<usize>)
        requires
            index < self.cells().len(),
            valid_divisor(self.nrows(), self.ncols(), divisor as int),
        ensures
            nrant_of(self.nrows(), self.ncols(), divisor as int, index as int) <= usize::MAX ==> r == Some(
                nrant_of(self.nrows(), self.ncols(), divisor as int, index as int) as usize,
            ),
            nrant_of(self.nrows(), self.ncols(), divisor as int, index as int) > usize::MAX ==> r is None,
    {
        let (row_block, col_block) = self.blocks_of(index, divisor);
        match row_block.checked_mul(divisor) {
            Some(v) => v.checked_add(col_block),
            None => {
                proof {
                    assert(row_block * divisor + col_block >= row_block * divisor) by (nonlinear_arith)
                        requires
                            col_block >= 0,
                    ;
                }
                None
            },
        }
    }

    /// The offset of the first cell of the region that offset `index` lies in.
    pub fn nrant_start(&self, index: usize, divisor: usize) -> (r: usize)
        requires
            index < self.cells().len(),
            valid_divisor(self.nrows(), self.ncols(), divisor as int),
        ensures
            r == region_start(
                self.nrows(),
                self.ncols(),
                divisor as int,
                nrant_of(self.nrows(), self.ncols(), divisor as int, index as int),
            ),
            r <= index,
            nrant_of(self.nrows(), self.ncols(), divisor as int, r as int) == nrant_of(
                self.nrows(),
                self.ncols(),
                divisor as int,
                index as int,
            ),
    {
        proof {
            use_type_invariant(self);
            lemma_region_parts(self.nrows(), self.ncols(), divisor as int, index as int);
        }
        let (y_rants, x_rants) = self.blocks_of(index, divisor);
        let x_offset = x_rants * ceiling(self.columns(), divisor);
        let y_offset = y_rants * ceiling(self.rows(), divisor);
        proof {
            let id = nrant_of(self.nrows(), self.ncols(), divisor as int, index as int);
            assert(y_offset * self.ncols() + x_offset == region_start(
                self.nrows(),
                self.ncols(),
                divisor as int,
                id,
            )) by (nonlinear_arith)
                requires
                    y_offset == (id / divisor as int) * ceil_div(self.nrows(), divisor as int),
                    x_offset == (id % divisor as int) * ceil_div(self.ncols(), divisor as int),
            ;
        }
        y_offset * self.columns() + x_offset
    }

    /// The quadrant of the cell that `index` names: its region when the grid is cut in
    /// two each way.
    pub fn quadrant<I: Index>(&self, index: I) -> (r: Result<usize, GridError>)
        ensures
            r == self.nrant_spec(self.offset_of(index), 2),
    {
        self.nrant(index, 2)
    }

    /// Exchanges the cells that `a` and `b` name; fails, changing nothing, when either
    /// is off the grid.
    pub fn swap<I: Index>(&mut self, a: I, b: I) -> (r: Result<(), GridError>)
        ensures
            r is Ok <==> old(self).offset_of(a) is Some && old(self).offset_of(b) is Some,
            r is Err ==> r == Err::<(), GridError>(GridError::IndexOutOfBounds) && *final(self) == *old(self),
            r is Ok ==> {
                let i = old(self).offset_of(a)->Some_0;
                let j = old(self).offset_of(b)->Some_0;
                &&& final(self).nrows() == old(self).nrows()
                &&& final(self).ncols() == old(self).ncols()
                &&& final(self).opts() == old(self).opts()
                &&& final(self).cells() == old(self).cells().update(i, old(self).cells()[j]).update(
                    j,
                    old(self).cells()[i],
                )
            },
    {
        proof {
            use_type_invariant(&*self);
        }
        let a = match a.grid_index(self) {
            Ok(i) => i,
            Err(e) => {
                return Err(e);
            },
        };
        let b = match b.grid_index(self) {
            Ok(i) => i,
            Err(e) => {
                return Err(e);
            },
        };
        swap_cells(&mut self.items, a, b);
        Ok(())
    }

    /// The four cardinal neighbours of the cell that `index` names.
    pub fn xy_neighbors<I: Index>(&self, index: I) -> (r: Result<XyNeighbor<'_, T>, GridError>)
        ensures
            self.offset_of(index) is None ==> (r matches Err(e) && e == GridError::IndexOutOfBounds),
            self.offset_of(index) matches Some(i) ==> (r matches Ok(n) && {
                &&& n.up == self.cell(self.step_from(Some(i), Step::Up))
                &&& n.left == self.cell(self.step_from(Some(i), Step::Left))
                &&& n.right == self.cell(self.step_from(Some(i), Step::Right))
                &&& n.down == self.cell(self.step_from(Some(i), Step::Down))
            }),
    {
        proof {
            use_type_invariant(self);
        }
        let index = match index.grid_index(self) {
            Ok(i) => i,
            Err(e) => {
                return Err(e);
            },
        };
        Ok(
            XyNeighbor {
                up: self.get_up(index),
                down: self.get_down(index),
                left: self.get_left(index),
                right: self.get_right(index),
            },
        )
    }

    /// The eight neighbours of the cell that `index` names.
    pub fn all_around_neighbors<I: Index>(&self, index: I) -> (r: Result<AllAroundNeighbor<'_, T>, GridError>)
        ensures
            self.offset_of(index) is None ==> (r matches Err(e) && e == GridError::IndexOutOfBounds),
            self.offset_of(index) matches Some(i) ==> (r matches Ok(n) && {
                let up = self.step_from(Some(i), Step::Up);
                let down = self.step_from(Some(i), Step::Down);
                &&& n.upleft == self.cell(self.step_from(up, Step::Left))
                &&& n.up == self.cell(up)
                &&& n.upright == self.cell(self.step_from(up, Step::Right))
                &&& n.left == self.cell(self.step_from(Some(i), Step::Left))
                &&& n.right == self.cell(self.step_from(Some(i), Step::Right))
                &&& n.downleft == self.cell(self.step_from(down, Step::Left))
                &&& n.down == self.cell(down)
                &&& n.downright == self.cell(self.step_from(down, Step::Right))
            }),
    {
        proof {
            use_type_invariant(self);
        }
        let index = match index.grid_index(self) {
            Ok(i) => i,
            Err(e) => {
                return Err(e);
            },
        };
        Ok(
            AllAroundNeighbor {
                upleft: self.get_upleft(index),
                up: self.get_up(index),
                upright: self.get_upright(index),
                left: self.get_left(index),
                right: self.get_right(index),
                downleft: self.get_downleft(index),
                down: self.get_down(index),
                downright: self.get_downright(index),
            },
        )
    }

    /// The largest logical x of the grid; it depends on the origin.
    pub fn max_x(&self) -> (r: isize)
        ensures
            r == x_range(self.nrows(), self.ncols(), self.opts().origin).1,
    {
        self.origin().max_x(self)
    }

    /// The largest logical y of the grid; it depends on the origin and the inversion.
    pub fn max_y(&self) -> (r: isize)
        ensures
            r == y_range(self.nrows(), self.ncols(), self.opts()).1,
    {
        self.origin().max_y(self)
    }

    /// The smallest logical x of the grid; it depends on the origin.
    pub fn min_x(&self) -> (r: isize)
        ensures
            r == x_range(self.nrows(), self.ncols(), self.opts().origin).0,
    {
        self.origin().min_x(self)
    }

    /// The smallest logical y of the grid; it depends on the origin and the inversion.
    pub fn min_y(&self) -> (r: isize)
        ensures
            r == y_range(self.nrows(), self.ncols(), self.opts()).0,
    {
        self.origin().min_y(self)
    }

    /// Walks every cell, in row-major order.
    pub fn iter(&self) -> (r: RowIter<'_, T>)
        ensures
            r.remaining() == self.cells(),
    {
        RowIter::all(self)
    }

    /// Walks every cell, in row-major order, for writing.
    pub fn iter_mut(&mut self) -> (r: MutRowIter<'_, T>)
        ensures
            r.grid_view() == *old(self),
            *final(r.target()) == *final(self),
            r.positions() == Seq::new(old(self).cells().len(), |k: int| k),
    {
        MutRowIter::all(self)
    }

    /// Walks the row of the cell that `index` names, from its first cell; walks nothing
    /// when `index` is off the grid.
    pub fn row_iter<I: Index>(&self, index: I) -> (r: RowIter<'_, T>)
        ensures
            self.offset_of(index) matches Some(i) ==> r.remaining() == self.row_cells(i / self.ncols()),
            self.offset_of(index) is None ==> r.remaining().len() == 0,
    {
        proof {
            use_type_invariant(self);
        }
        match index.grid_index(self) {
            Ok(i) => RowIter::new(self, i),
            Err(_) => RowIter::noop(self),
        }
    }

    /// Walks the column of the cell that `index` names, from its top cell; walks
    /// nothing when `index` is off the grid.
    pub fn col_iter<I: Index>(&self, index: I) -> (r: ColIter<'_, T>)
        ensures
            self.offset_of(index) matches Some(i) ==> r.remaining() == self.col_cells(i % self.ncols()),
            self.offset_of(index) is None ==> r.remaining().len() == 0,
    {
        proof {
            use_type_invariant(self);
        }
        match index.grid_index(self) {
            Ok(i) => ColIter::new(self, i),
            Err(_) => ColIter::noop(self),
        }
    }

    /// Walks the row of the cell that `index` names, for writing; walks nothing when
    /// `index` is off the grid.
    pub fn row_iter_mut<I: Index>(&mut self, index: I) -> (r: MutRowIter<'_, T>)
        ensures
            r.grid_view() == *old(self),
            *final(r.target()) == *final(self),
            old(self).offset_of(index) matches Some(i) ==> r.positions() == Seq::new(
                old(self).ncols() as nat,
                |k: int| (i / old(self).ncols()) * old(self).ncols() + k,
            ),
            old(self).offset_of(index) is None ==> r.positions().len() == 0,
    {
        proof {
            use_type_invariant(&*self);
        }
        match index.grid_index(self) {
            Ok(i) => MutRowIter::new(self, i),
            Err(_) => MutRowIter::noop(self),
        }
    }

    /// Walks the column of the cell that `index` names, for writing; walks nothing when
    /// `index` is off the grid.
    pub fn col_iter_mut<I: Index>(&mut self, index: I) -> (r: MutColIter<'_, T>)
        ensures
            r.grid_view() == *old(self),
            *final(r.target()) == *final(self),
            old(self).offset_of(index) matches Some(i) ==> r.positions() == Seq::new(
                old(self).nrows() as nat,
                |k: int| k * old(self).ncols() + i % old(self).ncols(),
            ),
            old(self).offset_of(index) is None ==> r.positions().len() == 0,
    {
        proof {
            use_type_invariant(&*self);
        }
        match index.grid_index(self) {
            Ok(i) => MutColIter::new(self, i),
            Err(_) => MutColIter::noop(self),
        }
    }

    /// Walks the quadrant of the cell that `index` names: `nrant_iter` with a divisor
    /// of two.
    pub fn quadrant_iter<I: Index>(&self, index: I) -> (r: NrantIterator<'_, T>)
        ensures
            valid_divisor(self.nrows(), self.ncols(), 2) && self.offset_of(index) is Some ==> r.remaining()
                == self.region_cells(2, self.offset_of(index)->Some_0),
            !(valid_divisor(self.nrows(), self.ncols(), 2) && self.offset_of(index) is Some)
                ==> r.remaining().len() == 0,
    {
        self.nrant_iter(2, index)
    }

    /// Walks the region of the cell that `index` names when the grid is cut into
    /// `divisor` by `divisor` regions (see `nrant`). Walks nothing when `index` is off
    /// the grid or `divisor` is out of range.
    pub fn nrant_iter<I: Index>(&self, divisor: usize, index: I) -> (r: NrantIterator<'_, T>)
        ensures
            valid_divisor(self.nrows(), self.ncols(), divisor as int) && self.offset_of(index) is Some
                ==> r.remaining() == self.region_cells(divisor as int, self.offset_of(index)->Some_0),
            !(valid_divisor(self.nrows(), self.ncols(), divisor as int) && self.offset_of(index) is Some)
                ==> r.remaining().len() == 0,
    {
        proof {
            use_type_invariant(self);
        }
        if divisor < 1 || (divisor > self.rows() && divisor > self.columns()) {
            return NrantIterator::noop(self);
        }
        match index.grid_index(self) {
            Ok(i) => NrantIterator::new(self, divisor, i),
            Err(_) => NrantIterator::noop(self),
        }
    }
}

/// The row of offset `index`.
pub(crate) fn row_number<T>(grid: &Grid<T>, index: usize) -> (r: usize)
    requires
        index < grid.cells().len(),
    ensures
        r == index as int / grid.ncols(),
        r < grid.nrows(),
{
    proof {
        use_type_invariant(grid);
        crate::index::lemma_row_col_in_range(index as int, grid.nrows(), grid.ncols());
    }
    index / grid.cols
}

/// The column of offset `index`.
pub(crate) fn col_number<T>(grid: &Grid<T>, index: usize) -> (r: usize)
    requires
        index < grid.cells().len(),
    ensures
        r == index as int % grid.ncols(),
        r < grid.ncols(),
{
    proof {
        use_type_invariant(grid);
        crate::index::lemma_row_col_in_range(index as int, grid.nrows(), grid.ncols());
    }
    index % grid.cols
}

/// The offset of the first cell in the row of offset `index`.
pub(crate) fn row_start_index<T>(grid: &Grid<T>, index: usize) -> (r: usize)
    requires
        index < grid.cells().len(),
    ensures
        r == (index as int / grid.ncols()) * grid.ncols(),
        r + grid.ncols() <= grid.cells().len(),
{
    proof {
        use_type_invariant(grid);
    }
    let row = row_number(grid, index);
    proof {
        assert(row * grid.ncols() + grid.ncols() <= grid.nrows() * grid.ncols()) by (nonlinear_arith)
            requires
                row < grid.nrows(),
                1 <= grid.ncols(),
        ;
    }
    row * grid.cols
}

/// The offset of the top cell in the column of offset `index`.
pub(crate) fn col_start_index<T>(grid: &Grid<T>, index: usize) -> (r: usize)
    requires
        index < grid.cells().len(),
    ensures
        r == index as int % grid.ncols(),
        r < grid.ncols(),
{
    col_number(grid, index)
}

/// `a / b` rounded up.
pub(crate) fn ceiling(a: usize, b: usize) -> (r: usize)
    requires
        a < crate::intogrid::MAX_CELLS,
        1 <= b < crate::intogrid::MAX_CELLS,
    ensures
        r == ceil_div(a as int, b as int),
{
    (a + b - 1) / b
}

/// Relies on `slice::swap`: exchanges the elements at positions `a` and `b`, which
/// must both be in bounds.
#[verifier::external_body]
fn swap_cells<T>(v: &mut Vec<T>, a: usize, b: usize)
    requires
        a < old(v).len(),
        b < old(v).len(),
    ensures
        final(v)@ == old(v)@.update(a as int, old(v)@[b as int]).update(b as int, old(v)@[a as int]),
    no_unwind
{
    v.swap(a, b)
}

} // verus!
