use vstd::prelude::*;

use crate::error::GridError;
use crate::grid::{valid_shape, GridOptions};

verus! {

/// One row up in storage order, wrapping from the top row to the bottom one when
/// `wrap_y` is set.
pub open spec fn raw_up(rows: int, cols: int, o: GridOptions, i: int) -> Option<int> {
    if i >= cols {
        Some(i - cols)
    } else if o.wrap_y {
        Some(i + rows * cols - cols)
    } else {
        None
    }
}

/// One row down in storage order, wrapping from the bottom row to the top one when
/// `wrap_y` is set.
pub open spec fn raw_down(rows: int, cols: int, o: GridOptions, i: int) -> Option<int> {
    if i + cols < rows * cols {
        Some(i + cols)
    } else if o.wrap_y {
        Some(i + cols - rows * cols)
    } else {
        None
    }
}

/// Whether "up" means toward greater logical y, which is a storage row further down.
pub open spec fn up_is_raw_down(o: GridOptions) -> bool {
    o.inverted_y && o.neighbor_ybased
}

/// The offset of the neighbour above offset `i`.
pub open spec fn up_of(rows: int, cols: int, o: GridOptions, i: int) -> Option<int> {
    if up_is_raw_down(o) {
        raw_down(rows, cols, o, i)
    } else {
        raw_up(rows, cols, o, i)
    }
}

/// The offset of the neighbour below offset `i`.
pub open spec fn down_of(rows: int, cols: int, o: GridOptions, i: int) -> Option<int> {
    if up_is_raw_down(o) {
        raw_up(rows, cols, o, i)
    } else {
        raw_down(rows, cols, o, i)
    }
}

/// The offset of the neighbour left of offset `i`, wrapping within the row when
/// `wrap_x` is set.
pub open spec fn left_of(rows: int, cols: int, o: GridOptions, i: int) -> Option<int> {
    if i % cols == 0 {
        if o.wrap_x {
            Some(i + cols - 1)
        } else {
            None
        }
    } else {
        Some(i - 1)
    }
}

/// The offset of the neighbour right of offset `i`, wrapping within the row when
/// `wrap_x` is set.
pub open spec fn right_of(rows: int, cols: int, o: GridOptions, i: int) -> Option<int> {
    if (i + 1) % cols == 0 {
        if o.wrap_x {
            Some(i + 1 - cols)
        } else {
            None
        }
    } else {
        Some(i + 1)
    }
}

/// The direction of a single step between neighbouring cells.
pub enum Step {
    Up,
    Down,
    Left,
    Right,
}

/// One step from offset `i`, if there is a cell to step from.
pub open spec fn step(rows: int, cols: int, o: GridOptions, i: Option<int>, dir: Step) -> Option<int> {
    match i {
        Some(k) => match dir {
            Step::Up => up_of(rows, cols, o, k),
            Step::Down => down_of(rows, cols, o, k),
            Step::Left => left_of(rows, cols, o, k),
            Step::Right => right_of(rows, cols, o, k),
        },
        None => None,
    }
}

/// A step in a direction that may have failed, as the `Result` the lookups return.
pub open spec fn as_found(i: Option<int>) -> Result<usize, GridError> {
    match i {
        Some(k) => Ok(k as usize),
        None => Err(GridError::IndexOutOfBounds),
    }
}

/// Each single step from a cell of the grid lands on a cell of the grid.
pub proof fn lemma_step_in_grid(rows: int, cols: int, o: GridOptions, i: int)
    requires
        valid_shape(rows, cols, o),
        0 <= i < rows * cols,
    ensures
        raw_up(rows, cols, o, i) matches Some(j) ==> 0 <= j < rows * cols,
        raw_down(rows, cols, o, i) matches Some(j) ==> 0 <= j < rows * cols,
        left_of(rows, cols, o, i) matches Some(j) ==> 0 <= j < rows * cols,
        right_of(rows, cols, o, i) matches Some(j) ==> 0 <= j < rows * cols,
{
    assert(cols <= rows * cols) by (nonlinear_arith)
        requires
            1 <= rows,
            1 <= cols,
    ;
    crate::index::lemma_row_col_in_range(i, rows, cols);
    vstd::arithmetic::div_mod::lemma_fundamental_div_mod(i, cols);
    assert(cols * (i / cols) + cols <= rows * cols) by (nonlinear_arith)
        requires
            i / cols < rows,
            1 <= cols,
    ;
    if i + 1 == rows * cols {
        vstd::arithmetic::div_mod::lemma_mod_multiples_basic(rows, cols);
    }
    vstd::arithmetic::div_mod::lemma_fundamental_div_mod(i + 1, cols);
    vstd::arithmetic::div_mod::lemma_div_pos_is_pos(i + 1, cols);
    if (i + 1) % cols == 0 {
        assert(cols * ((i + 1) / cols) >= cols) by (nonlinear_arith)
            requires
                (i + 1) / cols >= 1,
                1 <= cols,
        ;
        if (i + 1) / cols == 0 {
            assert(i + 1 == cols * ((i + 1) / cols));
            assert(cols * 0 == 0);
        }
    }
}

/// Wrap symmetry: with `wrap_x`, a step right from the last column of a row lands on the
/// first column of that row, and a step left from the first column lands on the last;
/// with `wrap_y`, a step down from the bottom row lands on the top row of the same
/// column, and a step up from the top row lands on the bottom row. Without wrap on an
/// axis, these steps find no cell.
pub proof fn lemma_wrap_symmetry(rows: int, cols: int, o: GridOptions, row: int, col: int)
    requires
        valid_shape(rows, cols, o),
        0 <= row < rows,
        0 <= col < cols,
    ensures
        right_of(rows, cols, o, row * cols + (cols - 1)) == if o.wrap_x {
            Some(row * cols)
        } else {
            None
        },
        left_of(rows, cols, o, row * cols) == if o.wrap_x {
            Some(row * cols + (cols - 1))
        } else {
            None
        },
        raw_down(rows, cols, o, (rows - 1) * cols + col) == if o.wrap_y {
            Some(col)
        } else {
            None
        },
        raw_up(rows, cols, o, col) == if o.wrap_y {
            Some((rows - 1) * cols + col)
        } else {
            None
        },
{
    vstd::arithmetic::div_mod::lemma_mod_multiples_basic(row + 1, cols);
    vstd::arithmetic::div_mod::lemma_mod_multiples_basic(row, cols);
    assert((row + 1) * cols == row * cols + (cols - 1) + 1) by (nonlinear_arith);
    assert((rows - 1) * cols == rows * cols - cols) by (nonlinear_arith);
}

/// The eight neighbours of offset `i`, in the order upleft, up, upright, left, right,
/// downleft, down, downright.
pub open spec fn around(rows: int, cols: int, o: GridOptions, i: int) -> Seq<Option<int>> {
    let up = step(rows, cols, o, Some(i), Step::Up);
    let down = step(rows, cols, o, Some(i), Step::Down);
    seq![
        step(rows, cols, o, up, Step::Left),
        up,
        step(rows, cols, o, up, Step::Right),
        step(rows, cols, o, Some(i), Step::Left),
        step(rows, cols, o, Some(i), Step::Right),
        step(rows, cols, o, down, Step::Left),
        down,
        step(rows, cols, o, down, Step::Right),
    ]
}

/// The four cardinal neighbours of offset `i`, in the order up, left, right, down.
pub open spec fn cardinal(rows: int, cols: int, o: GridOptions, i: int) -> Seq<Option<int>> {
    seq![
        step(rows, cols, o, Some(i), Step::Up),
        step(rows, cols, o, Some(i), Step::Left),
        step(rows, cols, o, Some(i), Step::Right),
        step(rows, cols, o, Some(i), Step::Down),
    ]
}

/// How many of the given neighbours are absent.
pub open spec fn count_absent(s: Seq<Option<int>>) -> int
    decreases s.len(),
{
    if s.len() == 0 {
        0
    } else {
        (if s.last() is None {
            1int
        } else {
            0int
        }) + count_absent(s.drop_last())
    }
}

/// How many of the four edges of the grid the cell at `row`, `col` lies on.
pub open spec fn edges_touched(rows: int, cols: int, row: int, col: int) -> int {
    (if row == 0 {
        1int
    } else {
        0int
    }) + (if row == rows - 1 {
        1int
    } else {
        0int
    }) + (if col == 0 {
        1int
    } else {
        0int
    }) + (if col == cols - 1 {
        1int
    } else {
        0int
    })
}

/// Whether the cell at `row`, `col` is a corner: on exactly one of the top and bottom
/// edges and on exactly one of the left and right edges.
pub open spec fn is_corner(rows: int, cols: int, row: int, col: int) -> bool {
    (row == 0) != (row == rows - 1) && (col == 0) != (col == cols - 1)
}

/// Without wrap, each single step from the cell at `row`, `col` exists exactly when the
/// cell is off the edge it would cross.
proof fn lemma_steps_no_wrap(rows: int, cols: int, o: GridOptions, row: int, col: int)
    requires
        valid_shape(rows, cols, o),
        !o.wrap_x,
        !o.wrap_y,
        0 <= row < rows,
        0 <= col < cols,
    ensures
        raw_up(rows, cols, o, row * cols + col) == if row > 0 {
            Some((row - 1) * cols + col)
        } else {
            None
        },
        raw_down(rows, cols, o, row * cols + col) == if row < rows - 1 {
            Some((row + 1) * cols + col)
        } else {
            None
        },
        left_of(rows, cols, o, row * cols + col) == if col > 0 {
            Some(row * cols + (col - 1))
        } else {
            None
        },
        right_of(rows, cols, o, row * cols + col) == if col < cols - 1 {
            Some(row * cols + (col + 1))
        } else {
            None
        },
{
    assert((row - 1) * cols == row * cols - cols) by (nonlinear_arith);
    assert((row + 1) * cols == row * cols + cols) by (nonlinear_arith);
    if row > 0 {
        assert(row * cols >= cols) by (nonlinear_arith)
            requires
                row >= 1,
                cols >= 1,
        ;
    }
    if row < rows - 1 {
        assert((row + 1) * cols + col < rows * cols) by (nonlinear_arith)
            requires
                row + 1 <= rows - 1,
                0 <= col < cols,
        ;
    } else {
        assert(row * cols + col + cols >= rows * cols) by (nonlinear_arith)
            requires
                row == rows - 1,
                0 <= col,
        ;
    }
    if row == 0 {
        assert(row * cols == 0) by (nonlinear_arith)
            requires
                row == 0,
        ;
    }
    vstd::arithmetic::div_mod::lemma_fundamental_div_mod_converse(row * cols + col, cols, row, col);
    if col + 1 == cols {
        vstd::arithmetic::div_mod::lemma_mod_multiples_basic(row + 1, cols);
    } else {
        vstd::arithmetic::div_mod::lemma_fundamental_div_mod_converse(
            row * cols + col + 1,
            cols,
            row,
            col + 1,
        );
    }
}

/// Neighbour count: without wrap, a cell off every edge has all four cardinal and all
/// eight surrounding neighbours; a cell on exactly one edge misses three of the eight;
/// a corner cell misses five.
pub proof fn lemma_neighbor_count(rows: int, cols: int, o: GridOptions, row: int, col: int)
    requires
        valid_shape(rows, cols, o),
        !o.wrap_x,
        !o.wrap_y,
        0 <= row < rows,
        0 <= col < cols,
    ensures
        edges_touched(rows, cols, row, col) == 0 ==> count_absent(cardinal(rows, cols, o, row * cols + col))
            == 0 && count_absent(around(rows, cols, o, row * cols + col)) == 0,
        edges_touched(rows, cols, row, col) == 1 ==> count_absent(around(rows, cols, o, row * cols + col))
            == 3,
        is_corner(rows, cols, row, col) ==> count_absent(around(rows, cols, o, row * cols + col)) == 5,
{
    let i = row * cols + col;
    lemma_steps_no_wrap(rows, cols, o, row, col);
    if row > 0 {
        lemma_steps_no_wrap(rows, cols, o, row - 1, col);
    }
    if row < rows - 1 {
        lemma_steps_no_wrap(rows, cols, o, row + 1, col);
    }
    reveal_with_fuel(count_absent, 9);
    let a = around(rows, cols, o, i);
    let c = cardinal(rows, cols, o, i);
    assert(a.drop_last().drop_last().drop_last().drop_last().drop_last().drop_last().drop_last().drop_last()
        =~= Seq::<Option<int>>::empty());
    assert(c.drop_last().drop_last().drop_last().drop_last() =~= Seq::<Option<int>>::empty());
}

} // verus!
