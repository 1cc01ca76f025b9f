//! Row-major layout of matrices: where entry `(r, c)` lives in a flat buffer.

use vstd::prelude::*;

verus! {

/// Row `r` of a row-major matrix with `cols` columns.
pub open spec fn matrix_row<T>(data: Seq<T>, cols: int, r: int) -> Seq<T> {
    data.subrange(r * cols, r * cols + cols)
}

/// Column `c` of a row-major matrix with `rows` rows and `cols` columns.
pub open spec fn matrix_column<T>(data: Seq<T>, rows: int, cols: int, c: int) -> Seq<T> {
    Seq::new(rows as nat, |t: int| data[t * cols + c])
}

/// A `rows x cols` tile at `(row_start, column_start)` lies within a `total_rows x total_cols` matrix.
pub open spec fn tile_in_bounds(
    row_start: int,
    column_start: int,
    rows: int,
    cols: int,
    total_rows: int,
    total_cols: int,
) -> bool {
    row_start + rows <= total_rows && column_start + cols <= total_cols
}

pub proof fn lemma_index_bounds(r: int, c: int, rows: int, cols: int)
    requires
        0 <= r < rows,
        0 <= c < cols,
    ensures
        0 <= r * cols,
        r * cols + c < rows * cols,
        r * cols + cols <= rows * cols,
{
    assert(r * cols + cols <= rows * cols) by (nonlinear_arith)
        requires
            0 <= r < rows,
            0 <= c < cols,
    ;
    assert(0 <= r * cols) by (nonlinear_arith)
        requires
            0 <= r,
            0 <= c < cols,
    ;
}

pub proof fn lemma_row_bounds(r: int, rows: int, cols: int)
    requires
        0 <= r < rows,
        0 <= cols,
    ensures
        0 <= r * cols,
        r * cols + cols <= rows * cols,
{
    assert(r * cols + cols <= rows * cols) by (nonlinear_arith)
        requires
            0 <= r < rows,
            0 <= cols,
    ;
    assert(0 <= r * cols) by (nonlinear_arith)
        requires
            0 <= r,
            0 <= cols,
    ;
}

/// Distinct positions of a row-major matrix occupy distinct offsets.
pub proof fn lemma_index_injective(r1: int, c1: int, r2: int, c2: int, cols: int)
    requires
        0 <= c1 < cols,
        0 <= c2 < cols,
        0 <= r1,
        0 <= r2,
        r1 * cols + c1 == r2 * cols + c2,
    ensures
        r1 == r2,
        c1 == c2,
{
    if r1 < r2 {
        assert(r1 * cols + cols <= r2 * cols) by (nonlinear_arith)
            requires
                r1 < r2,
                0 < cols,
        ;
    } else if r2 < r1 {
        assert(r2 * cols + cols <= r1 * cols) by (nonlinear_arith)
            requires
                r2 < r1,
                0 < cols,
        ;
    }
}

/// Every offset below `rows * cols` is the offset of exactly one position.
pub proof fn lemma_index_decompose(idx: int, rows: int, cols: int)
    requires
        0 <= idx < rows * cols,
        0 < cols,
    ensures
        0 <= idx / cols < rows,
        0 <= idx % cols < cols,
        idx == (idx / cols) * cols + idx % cols,
{
    vstd::arithmetic::div_mod::lemma_fundamental_div_mod(idx, cols);
    vstd::arithmetic::div_mod::lemma_div_pos_is_pos(idx, cols);
    vstd::arithmetic::div_mod::lemma_mod_bound(idx, cols);
    let q = idx / cols;
    let m = idx % cols;
    assert(q * cols == cols * q) by (nonlinear_arith);
    if q >= rows {
        assert(q * cols >= rows * cols) by (nonlinear_arith)
            requires
                q >= rows,
                0 < cols,
        ;
    }
}

} // verus!

verus! {

/// Where the element at offset `i` of a `rows x cols` matrix lands once the matrix is transposed.
pub open spec fn transposed_offset(i: int, rows: int, cols: int) -> int {
    (i % cols) * rows + i / cols
}

/// Which offset of a `rows x cols` matrix supplies offset `j` of its transpose.
pub open spec fn transposed_source(j: int, rows: int, cols: int) -> int {
    (j % rows) * cols + j / rows
}

pub proof fn lemma_div_mod_of_index(q: int, r: int, m: int)
    requires
        0 <= q,
        0 <= r < m,
    ensures
        (q * m + r) / m == q,
        (q * m + r) % m == r,
{
    vstd::arithmetic::div_mod::lemma_fundamental_div_mod_converse(q * m + r, m, q, r);
}

/// Transposing moves every offset to an offset, and the source of the target is the start.
pub proof fn lemma_transposed_offset(i: int, rows: int, cols: int)
    requires
        0 <= i < rows * cols,
        0 < rows,
        0 < cols,
    ensures
        0 <= transposed_offset(i, rows, cols) < rows * cols,
        transposed_source(transposed_offset(i, rows, cols), rows, cols) == i,
{
    lemma_index_decompose(i, rows, cols);
    let r = i / cols;
    let c = i % cols;
    let j = c * rows + r;
    lemma_index_bounds(c, r, cols, rows);
    assert(cols * rows == rows * cols) by (nonlinear_arith);
    lemma_div_mod_of_index(c, r, rows);
}

/// Transposing back: the target of the source of an offset is that offset.
pub proof fn lemma_transposed_source(j: int, rows: int, cols: int)
    requires
        0 <= j < rows * cols,
        0 < rows,
        0 < cols,
    ensures
        0 <= transposed_source(j, rows, cols) < rows * cols,
        transposed_offset(transposed_source(j, rows, cols), rows, cols) == j,
{
    assert(rows * cols == cols * rows) by (nonlinear_arith);
    lemma_index_decompose(j, cols, rows);
    let c = j / rows;
    let r = j % rows;
    lemma_index_bounds(r, c, rows, cols);
    lemma_div_mod_of_index(r, c, cols);
}

/// The number of `false` entries.
pub open spec fn count_false(s: Seq<bool>) -> nat
    decreases s.len(),
{
    if s.len() == 0 {
        0
    } else {
        count_false(s.drop_last()) + if s.last() {
            0nat
        } else {
            1nat
        }
    }
}

pub proof fn lemma_count_false_mark(s: Seq<bool>, i: int)
    requires
        0 <= i < s.len(),
        !s[i],
    ensures
        count_false(s.update(i, true)) + 1 == count_false(s),
    decreases s.len(),
{
    if i < s.len() - 1 {
        lemma_count_false_mark(s.drop_last(), i);
        assert(s.update(i, true).drop_last() =~= s.drop_last().update(i, true));
    } else {
        assert(s.update(i, true).drop_last() =~= s.drop_last());
    }
}

} // verus!
