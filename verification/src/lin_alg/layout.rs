//! Row-major layout: cell `(r, c)` of a matrix with `columns` columns lies at
//! flat index `r * columns + c`.

use vstd::prelude::*;

verus! {

/// A cell inside the extents lies inside the buffer.
pub proof fn lemma_cell_in_buffer(rows: int, columns: int, r: int, c: int)
    requires
        0 <= r < rows,
        0 <= c < columns,
    ensures
        0 <= r * columns <= r * columns + c < rows * columns,
        r * columns + columns <= rows * columns,
{
    assert(0 <= r * columns && r * columns + columns <= rows * columns) by (nonlinear_arith)
        requires
            0 <= r,
            r + 1 <= rows,
            0 < columns,
    ;
}

/// Cells are laid out row after row: an earlier row lies wholly before a
/// later one.
pub proof fn lemma_rows_in_order(columns: int, r1: int, c1: int, r2: int, c2: int)
    requires
        0 <= r1 < r2,
        0 <= c1 < columns,
        0 <= c2,
    ensures
        r1 * columns + c1 < r2 * columns + c2,
{
    assert(r1 * columns + columns <= r2 * columns) by (nonlinear_arith)
        requires
            0 <= r1,
            r1 + 1 <= r2,
            0 < columns,
    ;
}

/// Two cells share a flat index only if they are the same cell.
pub proof fn lemma_cell_unique(columns: int, r1: int, c1: int, r2: int, c2: int)
    requires
        0 <= r1,
        0 <= r2,
        0 <= c1 < columns,
        0 <= c2 < columns,
        r1 * columns + c1 == r2 * columns + c2,
    ensures
        r1 == r2,
        c1 == c2,
{
    if r1 < r2 {
        lemma_rows_in_order(columns, r1, c1, r2, c2);
    } else if r2 < r1 {
        lemma_rows_in_order(columns, r2, c2, r1, c1);
    }
}

/// Different cells lie at different flat indices.
pub proof fn lemma_cells_apart(columns: int, r1: int, c1: int, r2: int, c2: int)
    requires
        0 <= r1,
        0 <= r2,
        0 <= c1 < columns,
        0 <= c2 < columns,
        r1 != r2 || c1 != c2,
    ensures
        r1 * columns + c1 != r2 * columns + c2,
{
    if r1 * columns + c1 == r2 * columns + c2 {
        lemma_cell_unique(columns, r1, c1, r2, c2);
    }
}

/// Every flat index of a buffer is the index of one cell.
pub proof fn lemma_index_is_cell(rows: int, columns: int, i: int)
    requires
        0 <= i < rows * columns,
        0 <= rows,
        0 <= columns,
    ensures
        0 < columns,
        0 <= i / columns < rows,
        0 <= i % columns < columns,
        i == (i / columns) * columns + i % columns,
{
    assert(0 < columns) by (nonlinear_arith)
        requires
            0 <= i < rows * columns,
            0 <= rows,
            0 <= columns,
    ;
    vstd::arithmetic::div_mod::lemma_fundamental_div_mod(i, columns);
    vstd::arithmetic::div_mod::lemma_mod_bound(i, columns);
    let q = i / columns;
    assert(i == columns * q + i % columns);
    assert(columns * q == q * columns) by (nonlinear_arith);
    assert(0 <= q < rows) by (nonlinear_arith)
        requires
            q * columns + i % columns < rows * columns,
            0 <= q * columns + i % columns,
            0 <= i % columns < columns,
            0 <= rows,
    ;
}

} // verus!
