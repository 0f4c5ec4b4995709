use vstd::arithmetic::div_mod::lemma_fundamental_div_mod_converse;
use vstd::prelude::*;

verus! {

/// `a / b` rounded up.
pub open spec fn ceil_div(a: int, b: int) -> int {
    (a + b - 1) / b
}

/// Whether `d` may divide a `rows` by `cols` grid into `d * d` regions.
pub open spec fn valid_divisor(rows: int, cols: int, d: int) -> bool {
    1 <= d && (d <= rows || d <= cols)
}

/// The region of offset `i` when the grid is cut into `d` by `d` regions of
/// `ceil(rows / d)` rows and `ceil(cols / d)` columns, numbered row by row.
pub open spec fn nrant_of(rows: int, cols: int, d: int, i: int) -> int {
    (i / cols) / ceil_div(rows, d) * d + (i % cols) / ceil_div(cols, d)
}

/// The first offset of region `region`: its top row and left column.
pub open spec fn region_start(rows: int, cols: int, d: int, region: int) -> int {
    (region / d) * ceil_div(rows, d) * cols + (region % d) * ceil_div(cols, d)
}

/// The row block and column block of offset `i`, and the bounds that make the region
/// numbering and its start offset exact.
pub proof fn lemma_region_parts(rows: int, cols: int, d: int, i: int)
    requires
        1 <= rows,
        1 <= cols,
        valid_divisor(rows, cols, d),
        0 <= i < rows * cols,
    ensures
        1 <= ceil_div(rows, d),
        1 <= ceil_div(cols, d),
        rows <= ceil_div(rows, d) * d,
        cols <= ceil_div(cols, d) * d,
        0 <= (i / cols) / ceil_div(rows, d) < d,
        0 <= (i % cols) / ceil_div(cols, d) < d,
        (i / cols) / ceil_div(rows, d) * ceil_div(rows, d) <= i / cols,
        (i % cols) / ceil_div(cols, d) * ceil_div(cols, d) <= i % cols,
        0 <= nrant_of(rows, cols, d, i) < d * d,
        nrant_of(rows, cols, d, i) / d == (i / cols) / ceil_div(rows, d),
        nrant_of(rows, cols, d, i) % d == (i % cols) / ceil_div(cols, d),
        0 <= region_start(rows, cols, d, nrant_of(rows, cols, d, i)) <= i,
        nrant_of(rows, cols, d, region_start(rows, cols, d, nrant_of(rows, cols, d, i)))
            == nrant_of(rows, cols, d, i),
{
    let rh = ceil_div(rows, d);
    let rw = ceil_div(cols, d);
    lemma_ceil_div(rows, d);
    lemma_ceil_div(cols, d);
    crate::index::lemma_row_col_in_range(i, rows, cols);
    let row = i / cols;
    let col = i % cols;
    lemma_block(row, rows, rh, d);
    lemma_block(col, cols, rw, d);
    let rb = row / rh;
    let cb = col / rw;
    let id = rb * d + cb;
    assert(0 <= rb * d <= (d - 1) * d) by (nonlinear_arith)
        requires
            0 <= rb < d,
    ;
    assert((d - 1) * d + d == d * d) by (nonlinear_arith);
    lemma_fundamental_div_mod_converse(id, d, rb, cb);
    // The start lies in row rb * rh and column cb * rw.
    let srow = rb * rh;
    let scol = cb * rw;
    vstd::arithmetic::div_mod::lemma_fundamental_div_mod(row, rh);
    vstd::arithmetic::div_mod::lemma_fundamental_div_mod(col, rw);
    vstd::arithmetic::div_mod::lemma_mod_bound(row, rh);
    vstd::arithmetic::div_mod::lemma_mod_bound(col, rw);
    assert(0 <= srow <= row) by (nonlinear_arith)
        requires
            row == rh * rb + row % rh,
            0 <= row % rh,
            0 <= rb,
            1 <= rh,
            srow == rb * rh,
    ;
    assert(0 <= scol <= col) by (nonlinear_arith)
        requires
            col == rw * cb + col % rw,
            0 <= col % rw,
            0 <= cb,
            1 <= rw,
            scol == cb * rw,
    ;
    vstd::arithmetic::div_mod::lemma_fundamental_div_mod(i, cols);
    assert(0 <= srow * cols + scol <= i) by (nonlinear_arith)
        requires
            0 <= srow <= row,
            0 <= scol <= col,
            i == cols * row + col,
            1 <= cols,
    ;
    assert(region_start(rows, cols, d, id) == srow * cols + scol);
    lemma_fundamental_div_mod_converse(srow * cols + scol, cols, srow, scol);
    vstd::arithmetic::div_mod::lemma_div_multiples_vanish(rb, rh);
    vstd::arithmetic::div_mod::lemma_div_multiples_vanish(cb, rw);
    vstd::arithmetic::mul::lemma_mul_is_commutative(rb, rh);
    vstd::arithmetic::mul::lemma_mul_is_commutative(cb, rw);
}

/// Rounding up: `ceil_div(a, d)` is positive and covers `a` in `d` parts.
proof fn lemma_ceil_div(a: int, d: int)
    requires
        1 <= a,
        1 <= d,
    ensures
        1 <= ceil_div(a, d),
        a <= ceil_div(a, d) * d,
{
    vstd::arithmetic::div_mod::lemma_fundamental_div_mod(a + d - 1, d);
    vstd::arithmetic::div_mod::lemma_mod_bound(a + d - 1, d);
    let q = (a + d - 1) / d;
    vstd::arithmetic::mul::lemma_mul_is_commutative(q, d);
    assert(a <= q * d);
    if q <= 0 {
        assert(d * q <= 0) by (nonlinear_arith)
            requires
                q <= 0,
                1 <= d,
        ;
    }
}

/// A position `p` in `[0, n)`, cut into blocks of `b = ceil(n / d)`, falls in one of
/// the `d` blocks.
proof fn lemma_block(p: int, n: int, b: int, d: int)
    requires
        0 <= p < n,
        1 <= b,
        n <= b * d,
    ensures
        0 <= p / b < d,
{
    vstd::arithmetic::div_mod::lemma_div_pos_is_pos(p, b);
    vstd::arithmetic::div_mod::lemma_fundamental_div_mod(p, b);
    vstd::arithmetic::div_mod::lemma_mod_bound(p, b);
    if p / b >= d {
        assert(b * (p / b) >= b * d) by (nonlinear_arith)
            requires
                p / b >= d,
                1 <= b,
        ;
    }
}

/// Slot `k` of the `width`-wide window that starts at offset `start`: the offset it
/// covers, or `None` where the window runs past the right or bottom edge of the grid.
pub open spec fn window_slot(rows: int, cols: int, width: int, start: int, k: int) -> Option<int> {
    let ro = k / width;
    let co = k % width;
    if co + start % cols >= cols {
        None
    } else if start + ro * cols + co < rows * cols {
        Some(start + ro * cols + co)
    } else {
        None
    }
}

/// Slot `k` of the window of region `region`.
pub open spec fn region_slot(rows: int, cols: int, d: int, region: int, k: int) -> Option<int> {
    window_slot(rows, cols, ceil_div(cols, d), region_start(rows, cols, d, region), k)
}

/// The slot of its region's window that offset `j` occupies.
pub open spec fn slot_of(rows: int, cols: int, d: int, j: int) -> int {
    let rh = ceil_div(rows, d);
    let rw = ceil_div(cols, d);
    ((j / cols) % rh) * rw + (j % cols) % rw
}

/// Slot `k` of the window of the region of offset `i`, written out by row and column.
proof fn lemma_slot(rows: int, cols: int, d: int, i: int, k: int)
    requires
        1 <= rows,
        1 <= cols,
        valid_divisor(rows, cols, d),
        0 <= i < rows * cols,
        0 <= k < ceil_div(cols, d) * ceil_div(rows, d),
    ensures
        ({
            let rh = ceil_div(rows, d);
            let rw = ceil_div(cols, d);
            let r = nrant_of(rows, cols, d, i);
            let row = (r / d) * rh + k / rw;
            let col = (r % d) * rw + k % rw;
            &&& 0 <= k / rw < rh
            &&& 0 <= k % rw < rw
            &&& region_slot(rows, cols, d, r, k) == if col < cols && row < rows {
                Some(row * cols + col)
            } else {
                None
            }
            &&& (col < cols && row < rows) ==> nrant_of(rows, cols, d, row * cols + col) == r
        }),
{
    let rh = ceil_div(rows, d);
    let rw = ceil_div(cols, d);
    let r = nrant_of(rows, cols, d, i);
    lemma_region_parts(rows, cols, d, i);
    let rb = r / d;
    let cb = r % d;
    let ro = k / rw;
    let co = k % rw;
    vstd::arithmetic::div_mod::lemma_fundamental_div_mod(k, rw);
    vstd::arithmetic::div_mod::lemma_mod_bound(k, rw);
    vstd::arithmetic::div_mod::lemma_div_pos_is_pos(k, rw);
    if ro >= rh {
        assert(rw * ro >= rw * rh) by (nonlinear_arith)
            requires
                ro >= rh,
                rw >= 1,
        ;
        vstd::arithmetic::mul::lemma_mul_is_commutative(rw, rh);
    }
    // The region's start sits at row rb * rh and column cb * rw, inside the grid.
    crate::index::lemma_row_col_in_range(i, rows, cols);
    let srow = rb * rh;
    let scol = cb * rw;
    assert(0 <= srow && 0 <= scol) by (nonlinear_arith)
        requires
            srow == rb * rh,
            scol == cb * rw,
            0 <= rb,
            0 <= cb,
            1 <= rh,
            1 <= rw,
    ;
    let start = region_start(rows, cols, d, r);
    assert(start == srow * cols + scol);
    lemma_fundamental_div_mod_converse(start, cols, srow, scol);
    let row = srow + ro;
    let col = scol + co;
    assert(start + ro * cols + co == row * cols + col) by (nonlinear_arith)
        requires
            start == srow * cols + scol,
            row == srow + ro,
            col == scol + co,
    ;
    if col < cols && row < rows {
        lemma_fundamental_div_mod_converse(row * cols + col, cols, row, col);
        lemma_fundamental_div_mod_converse(row, rh, rb, ro);
        lemma_fundamental_div_mod_converse(col, rw, cb, co);
        assert(0 <= row * cols + col < rows * cols) by (nonlinear_arith)
            requires
                0 <= row < rows,
                0 <= col < cols,
        ;
    } else if col < cols {
        assert(row * cols + col >= rows * cols) by (nonlinear_arith)
            requires
                row >= rows,
                0 <= col,
                1 <= cols,
        ;
    }
}

/// Ragged partition coverage: for any shape and divisor, the windows of the regions
/// that hold cells cover every cell of the grid exactly once. Each present slot of a
/// region's window is a cell of that region, every cell fills a slot of its own
/// region's window, and no two slots of a window hold the same cell; since a cell lies
/// in one region only, no cell is visited twice across regions either.
pub proof fn lemma_partition_coverage(rows: int, cols: int, d: int)
    requires
        1 <= rows,
        1 <= cols,
        valid_divisor(rows, cols, d),
    ensures
        forall|i: int, k: int|
            0 <= i < rows * cols && 0 <= k < ceil_div(cols, d) * ceil_div(rows, d) && #[trigger] region_slot(
                rows,
                cols,
                d,
                nrant_of(rows, cols, d, i),
                k,
            ) is Some ==> {
                let j = region_slot(rows, cols, d, nrant_of(rows, cols, d, i), k)->Some_0;
                0 <= j < rows * cols && nrant_of(rows, cols, d, j) == nrant_of(rows, cols, d, i)
            },
        forall|j: int|
            0 <= j < rows * cols ==> 0 <= #[trigger] slot_of(rows, cols, d, j) < ceil_div(cols, d) * ceil_div(
                rows,
                d,
            ) && region_slot(rows, cols, d, nrant_of(rows, cols, d, j), slot_of(rows, cols, d, j)) == Some(j),
        forall|i: int, k1: int, k2: int|
            0 <= i < rows * cols && 0 <= k1 < ceil_div(cols, d) * ceil_div(rows, d) && 0 <= k2 < ceil_div(
                cols,
                d,
            ) * ceil_div(rows, d) && #[trigger] region_slot(rows, cols, d, nrant_of(rows, cols, d, i), k1)
                is Some && region_slot(rows, cols, d, nrant_of(rows, cols, d, i), k1) == #[trigger] region_slot(
                rows,
                cols,
                d,
                nrant_of(rows, cols, d, i),
                k2,
            ) ==> k1 == k2,
{
    let rh = ceil_div(rows, d);
    let rw = ceil_div(cols, d);
    assert forall|i: int, k: int|
        0 <= i < rows * cols && 0 <= k < rw * rh && #[trigger] region_slot(
            rows,
            cols,
            d,
            nrant_of(rows, cols, d, i),
            k,
        ) is Some implies {
        let j = region_slot(rows, cols, d, nrant_of(rows, cols, d, i), k)->Some_0;
        0 <= j < rows * cols && nrant_of(rows, cols, d, j) == nrant_of(rows, cols, d, i)
    } by {
        lemma_slot(rows, cols, d, i, k);
        let r = nrant_of(rows, cols, d, i);
        let row = (r / d) * rh + k / rw;
        let col = (r % d) * rw + k % rw;
        assert(0 <= row * cols + col < rows * cols) by (nonlinear_arith)
            requires
                0 <= row < rows,
                0 <= col < cols,
        ;
    }
    assert forall|j: int| 0 <= j < rows * cols implies 0 <= #[trigger] slot_of(rows, cols, d, j) < rw * rh
        && region_slot(rows, cols, d, nrant_of(rows, cols, d, j), slot_of(rows, cols, d, j)) == Some(j) by {
        lemma_region_parts(rows, cols, d, j);
        crate::index::lemma_row_col_in_range(j, rows, cols);
        let row = j / cols;
        let col = j % cols;
        let ro = row % rh;
        let co = col % rw;
        vstd::arithmetic::div_mod::lemma_mod_bound(row, rh);
        vstd::arithmetic::div_mod::lemma_mod_bound(col, rw);
        let k = ro * rw + co;
        assert(0 <= k < rw * rh) by (nonlinear_arith)
            requires
                0 <= ro < rh,
                0 <= co < rw,
                k == ro * rw + co,
        ;
        lemma_fundamental_div_mod_converse(k, rw, ro, co);
        lemma_slot(rows, cols, d, j, k);
        let r = nrant_of(rows, cols, d, j);
        vstd::arithmetic::div_mod::lemma_fundamental_div_mod(row, rh);
        vstd::arithmetic::div_mod::lemma_fundamental_div_mod(col, rw);
        vstd::arithmetic::div_mod::lemma_fundamental_div_mod(j, cols);
        assert((r / d) * rh + ro == row) by (nonlinear_arith)
            requires
                r / d == row / rh,
                row == rh * (row / rh) + row % rh,
                ro == row % rh,
        ;
        assert((r % d) * rw + co == col) by (nonlinear_arith)
            requires
                r % d == col / rw,
                col == rw * (col / rw) + col % rw,
                co == col % rw,
        ;
        assert(row * cols + col == j) by (nonlinear_arith)
            requires
                j == cols * row + col,
        ;
    }
    assert forall|i: int, k1: int, k2: int|
        0 <= i < rows * cols && 0 <= k1 < rw * rh && 0 <= k2 < rw * rh && #[trigger] region_slot(
            rows,
            cols,
            d,
            nrant_of(rows, cols, d, i),
            k1,
        ) is Some && region_slot(rows, cols, d, nrant_of(rows, cols, d, i), k1) == #[trigger] region_slot(
            rows,
            cols,
            d,
            nrant_of(rows, cols, d, i),
            k2,
        ) implies k1 == k2 by {
        lemma_slot(rows, cols, d, i, k1);
        lemma_slot(rows, cols, d, i, k2);
        let r = nrant_of(rows, cols, d, i);
        let row1 = (r / d) * rh + k1 / rw;
        let col1 = (r % d) * rw + k1 % rw;
        let row2 = (r / d) * rh + k2 / rw;
        let col2 = (r % d) * rw + k2 % rw;
        lemma_fundamental_div_mod_converse(row1 * cols + col1, cols, row1, col1);
        lemma_fundamental_div_mod_converse(row2 * cols + col2, cols, row2, col2);
        vstd::arithmetic::div_mod::lemma_fundamental_div_mod(k1, rw);
        vstd::arithmetic::div_mod::lemma_fundamental_div_mod(k2, rw);
    }
}

} // verus!
