use vstd::arithmetic::div_mod::lemma_fundamental_div_mod_converse;
use vstd::prelude::*;

use crate::error::GridError;
use crate::grid::{valid_shape, Grid, GridOptions, Origin};

verus! {

/// The y value after the optional axis inversion.
pub open spec fn inverted(o: GridOptions, y: int) -> int {
    if o.inverted_y {
        -y
    } else {
        y
    }
}

/// Moves a logical `(x, y)` (after inversion) to storage space, where `(0, 0)` is the
/// upper-left cell, x grows to the right and y grows downward.
pub open spec fn from_origin(rows: int, cols: int, origin: Origin, x: int, y: int) -> (int, int) {
    match origin {
        Origin::UpperLeft => (x, -y),
        Origin::UpperRight => (x + (cols - 1), -y),
        Origin::Center => (x + cols / 2, rows / 2 - y),
        Origin::LowerLeft => (x, (rows - 1) - y),
        Origin::LowerRight => (x + (cols - 1), (rows - 1) - y),
    }
}

/// Moves a storage-space `(column, row)` back to the logical frame of `origin`.
pub open spec fn to_origin(rows: int, cols: int, origin: Origin, cx: int, cy: int) -> (int, int) {
    match origin {
        Origin::UpperLeft => (cx, -cy),
        Origin::UpperRight => (cx - (cols - 1), -cy),
        Origin::Center => (cx - cols / 2, rows / 2 - cy),
        Origin::LowerLeft => (cx, (rows - 1) - cy),
        Origin::LowerRight => (cx - (cols - 1), (rows - 1) - cy),
    }
}

/// Whether a storage-space `(column, row)` lies on the grid.
pub open spec fn in_grid(rows: int, cols: int, c: (int, int)) -> bool {
    0 <= c.0 < cols && 0 <= c.1 < rows
}

/// The storage offset that the logical `(x, y)` names, or `None` when it is off the grid.
pub open spec fn offset_of_xy(rows: int, cols: int, o: GridOptions, x: int, y: int) -> Option<int> {
    let c = from_origin(rows, cols, o.origin, x, inverted(o, y));
    if in_grid(rows, cols, c) {
        Some(c.1 * cols + c.0)
    } else {
        None
    }
}

/// The logical `(x, y)` of the cell stored at offset `i`.
pub open spec fn xy_of_offset(rows: int, cols: int, o: GridOptions, i: int) -> (int, int) {
    let xy = to_origin(rows, cols, o.origin, i % cols, i / cols);
    (xy.0, inverted(o, xy.1))
}

/// The logical coordinates that name a cell of the grid.
pub open spec fn valid_coords(rows: int, cols: int, o: GridOptions) -> Set<(int, int)> {
    Set::new(|c: (int, int)| offset_of_xy(rows, cols, o, c.0, c.1) is Some)
}

/// Round trip: a logical coordinate on the grid, turned into its offset and back,
/// comes back unchanged, whatever the origin, inversion and wrap settings.
pub proof fn lemma_round_trip(rows: int, cols: int, o: GridOptions, x: int, y: int)
    requires
        valid_shape(rows, cols, o),
        offset_of_xy(rows, cols, o, x, y) is Some,
    ensures
        xy_of_offset(rows, cols, o, offset_of_xy(rows, cols, o, x, y)->Some_0) == (x, y),
{
    let c = from_origin(rows, cols, o.origin, x, inverted(o, y));
    lemma_fundamental_div_mod_converse(c.1 * cols + c.0, cols, c.1, c.0);
}

/// Offset `i` of a `rows` by `cols` grid sits in row `i / cols` and column `i % cols`,
/// both on the grid.
pub proof fn lemma_row_col_in_range(i: int, rows: int, cols: int)
    requires
        1 <= cols,
        0 <= i < rows * cols,
    ensures
        0 <= i / cols < rows,
        0 <= i % cols < cols,
{
    vstd::arithmetic::div_mod::lemma_fundamental_div_mod(i, cols);
    vstd::arithmetic::div_mod::lemma_mod_bound(i, cols);
    vstd::arithmetic::div_mod::lemma_div_pos_is_pos(i, cols);
    if i / cols >= rows {
        assert(cols * (i / cols) >= rows * cols) by (nonlinear_arith)
            requires
                i / cols >= rows,
                cols >= 1,
        ;
    }
}

/// Every offset of the grid is named by its logical coordinate.
pub proof fn lemma_offset_round_trip(rows: int, cols: int, o: GridOptions, i: int)
    requires
        valid_shape(rows, cols, o),
        0 <= i < rows * cols,
    ensures
        offset_of_xy(rows, cols, o, xy_of_offset(rows, cols, o, i).0, xy_of_offset(rows, cols, o, i).1)
            == Some(i),
{
    vstd::arithmetic::div_mod::lemma_fundamental_div_mod(i, cols);
    lemma_row_col_in_range(i, rows, cols);
    assert(i == (i / cols) * cols + i % cols) by (nonlinear_arith)
        requires
            i == cols * (i / cols) + (i % cols),
    ;
}

/// Bijection: a grid of `rows * cols` cells has exactly that many logical coordinates,
/// and they name distinct offsets, each in `[0, rows * cols)`.
pub proof fn lemma_bijection(rows: int, cols: int, o: GridOptions)
    requires
        valid_shape(rows, cols, o),
    ensures
        valid_coords(rows, cols, o).finite(),
        valid_coords(rows, cols, o).len() == rows * cols,
        forall|c: (int, int)| #[trigger]
            valid_coords(rows, cols, o).contains(c) ==> 0 <= offset_of_xy(rows, cols, o, c.0, c.1)->Some_0
                < rows * cols,
        forall|c: (int, int), d: (int, int)|
            #![trigger valid_coords(rows, cols, o).contains(c), valid_coords(rows, cols, o).contains(d)]
            valid_coords(rows, cols, o).contains(c) && valid_coords(rows, cols, o).contains(d)
                && offset_of_xy(rows, cols, o, c.0, c.1) == offset_of_xy(rows, cols, o, d.0, d.1) ==> c == d,
{
    let valid = valid_coords(rows, cols, o);
    let offsets = vstd::set_lib::set_int_range(0, rows * cols);
    let f = |i: int| xy_of_offset(rows, cols, o, i);
    assert forall|c: (int, int)| #[trigger] valid.contains(c) implies 0 <= offset_of_xy(
        rows,
        cols,
        o,
        c.0,
        c.1,
    )->Some_0 < rows * cols by {
        let cc = from_origin(rows, cols, o.origin, c.0, inverted(o, c.1));
        assert(0 <= cc.1 * cols + cc.0 < rows * cols) by (nonlinear_arith)
            requires
                0 <= cc.0 < cols,
                0 <= cc.1 < rows,
        ;
    }
    assert forall|c: (int, int), d: (int, int)|
        valid.contains(c) && valid.contains(d) && offset_of_xy(rows, cols, o, c.0, c.1) == offset_of_xy(
            rows,
            cols,
            o,
            d.0,
            d.1,
        ) implies c == d by {
        lemma_round_trip(rows, cols, o, c.0, c.1);
        lemma_round_trip(rows, cols, o, d.0, d.1);
    }
    assert(vstd::relations::injective_on(f, offsets)) by {
        assert forall|i: int, j: int|
            offsets.contains(i) && offsets.contains(j) && #[trigger] f(i) == #[trigger] f(j) implies i == j by {
            lemma_offset_round_trip(rows, cols, o, i);
            lemma_offset_round_trip(rows, cols, o, j);
        }
    }
    assert(offsets.map(f) =~= valid) by {
        assert forall|c: (int, int)| valid.contains(c) implies #[trigger] offsets.map(f).contains(c) by {
            lemma_round_trip(rows, cols, o, c.0, c.1);
            let i = offset_of_xy(rows, cols, o, c.0, c.1)->Some_0;
            assert(offsets.contains(i));
            assert(f(i) == c);
        }
        assert forall|c: (int, int)| #[trigger] offsets.map(f).contains(c) implies valid.contains(c) by {
            let i = choose|i: int| offsets.contains(i) && f(i) == c;
            lemma_offset_round_trip(rows, cols, o, i);
        }
    }
    vstd::set_lib::lemma_int_range(0, rows * cols);
    vstd::set_lib::lemma_map_size(offsets, valid, f);
}

/// A way of naming a cell: it resolves to a storage offset of a grid, and can be
/// recovered from one.
pub trait Index: Sized {
    /// The offset that this value names in a grid of this shape, or `None` when it is
    /// off the grid.
    spec fn offset_in(&self, rows: int, cols: int, o: GridOptions) -> Option<int>;

    /// The value that names offset `i`.
    spec fn at_offset(i: int, rows: int, cols: int, o: GridOptions) -> Self;

    /// The storage offset that this value names, checked against the grid's bounds.
    fn grid_index<T>(self, grid: &Grid<T>) -> (r: Result<usize, GridError>)
        ensures
            match self.offset_in(grid.nrows(), grid.ncols(), grid.opts()) {
                Some(i) => r == Ok::<usize, GridError>(i as usize) && 0 <= i < grid.cells().len(),
                None => r == Err::<usize, GridError>(GridError::IndexOutOfBounds),
            },
    ;

    /// The value that names offset `index` of the grid.
    fn output<T>(index: usize, grid: &Grid<T>) -> (r: Self)
        requires
            index < grid.cells().len(),
        ensures
            r == Self::at_offset(index as int, grid.nrows(), grid.ncols(), grid.opts()),
    ;
}

/// A logical coordinate with named fields.
#[derive(Clone, Copy, Debug, PartialEq, Eq, Structural)]
pub struct Coordinates {
    pub x: isize,
    pub y: isize,
}

impl Index for Coordinates {
    open spec fn offset_in(&self, rows: int, cols: int, o: GridOptions) -> Option<int> {
        offset_of_xy(rows, cols, o, self.x as int, self.y as int)
    }

    open spec fn at_offset(i: int, rows: int, cols: int, o: GridOptions) -> Coordinates {
        let xy = xy_of_offset(rows, cols, o, i);
        Coordinates { x: xy.0 as isize, y: xy.1 as isize }
    }

    fn grid_index<T>(self, grid: &Grid<T>) -> (r: Result<usize, GridError>) {
        xy_grid_index(grid, self.x, self.y)
    }

    fn output<T>(index: usize, grid: &Grid<T>) -> (r: Coordinates) {
        let (x, y) = xy_output(index, grid);
        Coordinates { x, y }
    }
}

impl Index for usize {
    open spec fn offset_in(&self, rows: int, cols: int, o: GridOptions) -> Option<int> {
        if *self < rows * cols {
            Some(*self as int)
        } else {
            None
        }
    }

    open spec fn at_offset(i: int, rows: int, cols: int, o: GridOptions) -> usize {
        i as usize
    }

    fn grid_index<T>(self, grid: &Grid<T>) -> (r: Result<usize, GridError>) {
        if self < grid.size() {
            Ok(self)
        } else {
            Err(GridError::IndexOutOfBounds)
        }
    }

    fn output<T>(index: usize, grid: &Grid<T>) -> (r: usize) {
        index
    }
}

impl Index for (isize, isize) {
    open spec fn offset_in(&self, rows: int, cols: int, o: GridOptions) -> Option<int> {
        offset_of_xy(rows, cols, o, self.0 as int, self.1 as int)
    }

    open spec fn at_offset(i: int, rows: int, cols: int, o: GridOptions) -> (isize, isize) {
        let xy = xy_of_offset(rows, cols, o, i);
        (xy.0 as isize, xy.1 as isize)
    }

    fn grid_index<T>(self, grid: &Grid<T>) -> (r: Result<usize, GridError>) {
        xy_grid_index(grid, self.0, self.1)
    }

    fn output<T>(index: usize, grid: &Grid<T>) -> (r: (isize, isize)) {
        xy_output(index, grid)
    }
}

/// Resolves a logical `(x, y)` to its storage offset.
fn xy_grid_index<T>(grid: &Grid<T>, x: isize, y: isize) -> (r: Result<usize, GridError>)
    ensures
        match offset_of_xy(grid.nrows(), grid.ncols(), grid.opts(), x as int, y as int) {
            Some(i) => r == Ok::<usize, GridError>(i as usize) && 0 <= i < grid.cells().len(),
            None => r == Err::<usize, GridError>(GridError::IndexOutOfBounds),
        },
{
    proof {
        use_type_invariant(grid);
    }
    if y == isize::MIN {
        return Err(GridError::IndexOutOfBounds);
    }
    let y = invert_y(grid, y);
    if bounds_check(grid, x, y).is_err() {
        return Err(GridError::IndexOutOfBounds);
    }
    proof {
        let c = from_origin(grid.nrows(), grid.ncols(), grid.opts().origin, x as int, y as int);
        assert(0 <= c.1 * grid.ncols() + c.0 < grid.nrows() * grid.ncols()) by (nonlinear_arith)
            requires
                0 <= c.0 < grid.ncols(),
                0 <= c.1 < grid.nrows(),
        ;
    }
    Ok(xy_to_index(grid, x, y))
}

/// The logical `(x, y)` of the cell stored at `index`.
fn xy_output<T>(index: usize, grid: &Grid<T>) -> (r: (isize, isize))
    requires
        index < grid.cells().len(),
    ensures
        r == (xy_of_offset(grid.nrows(), grid.ncols(), grid.opts(), index as int).0 as isize,
            xy_of_offset(grid.nrows(), grid.ncols(), grid.opts(), index as int).1 as isize),
        r.0 == xy_of_offset(grid.nrows(), grid.ncols(), grid.opts(), index as int).0,
        r.1 == xy_of_offset(grid.nrows(), grid.ncols(), grid.opts(), index as int).1,
{
    proof {
        use_type_invariant(grid);
        lemma_row_col_in_range(index as int, grid.nrows(), grid.ncols());
    }
    let (x, y) = (index % grid.cols, index / grid.cols);
    let (x, y) = adjust_to_origin(grid, x as isize, y as isize);
    let y = invert_y(grid, y);
    (x, y)
}

/// Applies the grid's optional inversion of the y axis.
pub(crate) fn invert_y<T>(grid: &Grid<T>, y: isize) -> (r: isize)
    requires
        y != isize::MIN,
    ensures
        r == inverted(grid.opts(), y as int),
{
    if grid.options.inverted_y {
        -y
    } else {
        y
    }
}

/// Checks that the logical `(x, y)`, already inverted, lies on the grid.
pub(crate) fn bounds_check<T>(grid: &Grid<T>, x: isize, y: isize) -> (r: Result<(), GridError>)
    ensures
        r is Ok <==> in_grid(
            grid.nrows(),
            grid.ncols(),
            from_origin(grid.nrows(), grid.ncols(), grid.opts().origin, x as int, y as int),
        ),
        r is Err ==> r == Err::<(), GridError>(GridError::IndexOutOfBounds),
{
    proof {
        use_type_invariant(grid);
    }
    let cols = grid.cols as isize;
    let rows = grid.rows as isize;
    let inside = match grid.options.origin {
        Origin::UpperLeft => 0 <= x && x < cols && y <= 0 && y > -rows,
        Origin::UpperRight => x <= 0 && x > -cols && y <= 0 && y > -rows,
        Origin::LowerLeft => 0 <= x && x < cols && 0 <= y && y < rows,
        Origin::LowerRight => x <= 0 && x > -cols && 0 <= y && y < rows,
        Origin::Center => {
            let x_offset = cols / 2;
            let y_offset = rows / 2;
            -x_offset <= x && x <= x_offset && -y_offset <= y && y <= y_offset
        },
    };
    if inside {
        Ok(())
    } else {
        Err(GridError::IndexOutOfBounds)
    }
}

/// The storage offset of the logical `(x, y)`, already inverted, with no bounds check:
/// row `cy` and column `cx` of storage space give `cy * columns + cx`.
pub fn xy_to_index<T>(grid: &Grid<T>, x: isize, y: isize) -> (r: usize)
    requires
        y != isize::MIN,
        0 <= from_origin(grid.nrows(), grid.ncols(), grid.opts().origin, x as int, y as int).0
            <= isize::MAX,
        0 <= from_origin(grid.nrows(), grid.ncols(), grid.opts().origin, x as int, y as int).1
            <= isize::MAX,
        from_origin(grid.nrows(), grid.ncols(), grid.opts().origin, x as int, y as int).1 * grid.ncols()
            + from_origin(grid.nrows(), grid.ncols(), grid.opts().origin, x as int, y as int).0
            <= usize::MAX,
    ensures
        r == from_origin(grid.nrows(), grid.ncols(), grid.opts().origin, x as int, y as int).1
            * grid.ncols() + from_origin(
            grid.nrows(),
            grid.ncols(),
            grid.opts().origin,
            x as int,
            y as int,
        ).0,
{
    let (x, y) = adjust_from_origin(grid, x, y);
    proof {
        assert(0 <= y * grid.ncols()) by (nonlinear_arith)
            requires
                0 <= y,
                0 <= grid.ncols(),
        ;
    }
    y as usize * grid.cols + x as usize
}

/// Moves a logical `(x, y)`, already inverted, into storage space.
pub fn adjust_from_origin<T>(grid: &Grid<T>, x: isize, y: isize) -> (r: (isize, isize))
    requires
        y != isize::MIN,
        isize::MIN <= from_origin(grid.nrows(), grid.ncols(), grid.opts().origin, x as int, y as int).0
            <= isize::MAX,
        isize::MIN <= from_origin(grid.nrows(), grid.ncols(), grid.opts().origin, x as int, y as int).1
            <= isize::MAX,
    ensures
        (r.0 as int, r.1 as int) == from_origin(
            grid.nrows(),
            grid.ncols(),
            grid.opts().origin,
            x as int,
            y as int,
        ),
{
    match grid.options.origin {
        Origin::UpperLeft => convert_upper_left(grid, x, y),
        Origin::UpperRight => convert_upper_right(grid, x, y),
        Origin::Center => convert_center(grid, x, y),
        Origin::LowerLeft => convert_lower_left(grid, x, y),
        Origin::LowerRight => convert_lower_right(grid, x, y),
    }
}

/// Moves a storage-space `(column, row)` into the logical frame of the grid's origin
/// (before the optional inversion).
pub(crate) fn adjust_to_origin<T>(grid: &Grid<T>, x: isize, y: isize) -> (r: (isize, isize))
    requires
        0 <= x < grid.ncols(),
        0 <= y < grid.nrows(),
    ensures
        (r.0 as int, r.1 as int) == to_origin(grid.nrows(), grid.ncols(), grid.opts().origin, x as int, y as int),
{
    proof {
        use_type_invariant(grid);
    }
    match grid.options.origin {
        Origin::UpperLeft => convert_upper_left(grid, x, y),
        Origin::UpperRight => {
            let (tx, ty) = convert_upper_right(grid, -x, y);
            (-tx, ty)
        },
        Origin::Center => {
            let (tx, ty) = convert_center(grid, -x, y);
            (-tx, ty)
        },
        Origin::LowerLeft => convert_lower_left(grid, x, y),
        Origin::LowerRight => {
            let (tx, ty) = convert_lower_right(grid, -x, y);
            (-tx, ty)
        },
    }
}

fn convert_center<T>(grid: &Grid<T>, x: isize, y: isize) -> (r: (isize, isize))
    requires
        y != isize::MIN,
        isize::MIN <= x + grid.ncols() / 2 <= isize::MAX,
        isize::MIN <= grid.nrows() / 2 - y <= isize::MAX,
    ensures
        r.0 == x + grid.ncols() / 2,
        r.1 == grid.nrows() / 2 - y,
{
    proof {
        use_type_invariant(grid);
    }
    let x_offset = grid.cols / 2;
    let y_offset = grid.rows / 2;
    (x + x_offset as isize, -y + y_offset as isize)
}

fn convert_upper_left<T>(grid: &Grid<T>, x: isize, y: isize) -> (r: (isize, isize))
    requires
        y != isize::MIN,
    ensures
        r.0 == x,
        r.1 == -y,
{
    (x, -y)
}

fn convert_upper_right<T>(grid: &Grid<T>, x: isize, y: isize) -> (r: (isize, isize))
    requires
        y != isize::MIN,
        isize::MIN <= x + (grid.ncols() - 1) <= isize::MAX,
    ensures
        r.0 == x + (grid.ncols() - 1),
        r.1 == -y,
{
    proof {
        use_type_invariant(grid);
    }
    (x + ((grid.cols - 1) as isize), -y)
}

fn convert_lower_left<T>(grid: &Grid<T>, x: isize, y: isize) -> (r: (isize, isize))
    requires
        isize::MIN <= (grid.nrows() - 1) - y <= isize::MAX,
    ensures
        r.0 == x,
        r.1 == (grid.nrows() - 1) - y,
{
    proof {
        use_type_invariant(grid);
    }
    (x, (grid.rows - 1) as isize - y)
}

fn convert_lower_right<T>(grid: &Grid<T>, x: isize, y: isize) -> (r: (isize, isize))
    requires
        isize::MIN <= x + (grid.ncols() - 1) <= isize::MAX,
        isize::MIN <= (grid.nrows() - 1) - y <= isize::MAX,
    ensures
        r.0 == x + (grid.ncols() - 1),
        r.1 == (grid.nrows() - 1) - y,
{
    proof {
        use_type_invariant(grid);
    }
    ((grid.cols - 1) as isize + x, (grid.rows - 1) as isize - y)
}

} // verus!
