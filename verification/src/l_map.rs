//! The 1-indexed vectorisation maps between matrix coordinates and flat indices:
//! column-major `L` and row-major `L*`, together with their inverses.
use vstd::arithmetic::div_mod::lemma_fundamental_div_mod_converse;
use vstd::arithmetic::div_mod::lemma_fundamental_div_mod;
use vstd::arithmetic::mul::lemma_mul_upper_bound;
use vstd::prelude::*;

verus! {

/// Column-major flat index (1-indexed) of entry `(r, c)` of a matrix with `rows` rows.
pub open spec fn l_map_spec(r: int, c: int, rows: int) -> int {
    r + (c - 1) * rows
}

/// Coordinates (1-indexed) of the column-major flat index `idx` in a matrix with `rows` rows.
pub open spec fn l_map_inv_spec(idx: int, rows: int) -> (int, int) {
    ((idx - 1) % rows + 1, (idx - 1) / rows + 1)
}

/// Row-major flat index (1-indexed) of entry `(r, c)` of a matrix with `cols` columns.
pub open spec fn l_star_map_spec(r: int, c: int, cols: int) -> int {
    (r - 1) * cols + c
}

/// Coordinates (1-indexed) of the row-major flat index `idx` in a matrix with `cols` columns.
pub open spec fn l_star_map_inv_spec(idx: int, cols: int) -> (int, int) {
    ((idx - 1) / cols + 1, (idx - 1) % cols + 1)
}

/// Natural column-major mapping (1-indexed): L(r, c; rows, cols) = r + (c - 1) * rows.
#[inline]
pub fn l_map(r: usize, c: usize, rows: usize, _cols: usize) -> (idx: usize)
    requires
        c >= 1,
        l_map_spec(r as int, c as int, rows as int) <= usize::MAX,
    ensures
        idx == l_map_spec(r as int, c as int, rows as int),
{
    r + (c - 1) * rows
}

/// Natural column-major inverse mapping (1-indexed): L^-1(idx; rows, cols) = (row, col).
#[inline]
pub fn l_map_inv(idx: usize, rows: usize, _cols: usize) -> (rc: (usize, usize))
    requires
        idx >= 1,
        rows >= 1,
    ensures
        (rc.0 as int, rc.1 as int) == l_map_inv_spec(idx as int, rows as int),
{
    proof {
        lemma_fundamental_div_mod((idx - 1) as int, rows as int);
    }
    let r = (idx - 1) % rows + 1;
    let c = (idx - 1) / rows + 1;
    (r, c)
}

/// Inverse row-major mapping (1-indexed): L star map (r, c; rows, cols) = (r - 1) * cols + c.
#[inline]
pub fn l_star_map(r: usize, c: usize, _rows: usize, cols: usize) -> (idx: usize)
    requires
        r >= 1,
        l_star_map_spec(r as int, c as int, cols as int) <= usize::MAX,
    ensures
        idx == l_star_map_spec(r as int, c as int, cols as int),
{
    (r - 1) * cols + c
}

/// Inverse row-major inverse mapping (1-indexed): (L star map)^-1(idx; rows, cols) = (row, col).
#[inline]
pub fn l_star_map_inv(idx: usize, _rows: usize, cols: usize) -> (rc: (usize, usize))
    requires
        idx >= 1,
        cols >= 1,
    ensures
        (rc.0 as int, rc.1 as int) == l_star_map_inv_spec(idx as int, cols as int),
{
    proof {
        lemma_fundamental_div_mod((idx - 1) as int, cols as int);
    }
    let r = (idx - 1) / cols + 1;
    let c = (idx - 1) % cols + 1;
    (r, c)
}

/// `L` sends the coordinates of a `rows x cols` matrix into `1..=rows*cols`, and `L^-1`
/// gives the coordinates back.
pub proof fn lemma_l_map_round_trip(r: int, c: int, rows: int, cols: int)
    requires
        1 <= r <= rows,
        1 <= c <= cols,
    ensures
        1 <= l_map_spec(r, c, rows) <= rows * cols,
        l_map_inv_spec(l_map_spec(r, c, rows), rows) == (r, c),
{
    lemma_fundamental_div_mod_converse(l_map_spec(r, c, rows) - 1, rows, c - 1, r - 1);
    lemma_mul_upper_bound(c - 1, cols - 1, rows, rows);
    assert((c - 1) * rows >= 0) by (nonlinear_arith)
        requires c >= 1, rows >= 1;
    assert((cols - 1) * rows + rows == rows * cols) by (nonlinear_arith);
}

/// Every flat index in `1..=rows*cols` is `L` of exactly the coordinates that `L^-1` gives,
/// and those coordinates lie inside the matrix.
pub proof fn lemma_l_map_inv_round_trip(idx: int, rows: int, cols: int)
    requires
        rows >= 1,
        1 <= idx <= rows * cols,
    ensures
        1 <= l_map_inv_spec(idx, rows).0 <= rows,
        1 <= l_map_inv_spec(idx, rows).1 <= cols,
        l_map_spec(l_map_inv_spec(idx, rows).0, l_map_inv_spec(idx, rows).1, rows) == idx,
{
    let q = (idx - 1) / rows;
    lemma_fundamental_div_mod(idx - 1, rows);
    assert(q < cols) by (nonlinear_arith)
        requires
            idx - 1 == rows * q + (idx - 1) % rows,
            0 <= (idx - 1) % rows,
            idx <= rows * cols,
            rows >= 1,
    ;
    assert(q >= 0) by (nonlinear_arith)
        requires
            idx - 1 == rows * q + (idx - 1) % rows,
            (idx - 1) % rows < rows,
            idx >= 1,
            rows >= 1,
    ;
    assert(rows * q == q * rows) by (nonlinear_arith);
}

/// `L*` sends the coordinates of a `rows x cols` matrix into `1..=rows*cols`, and `(L*)^-1`
/// gives the coordinates back.
pub proof fn lemma_l_star_map_round_trip(r: int, c: int, rows: int, cols: int)
    requires
        1 <= r <= rows,
        1 <= c <= cols,
    ensures
        1 <= l_star_map_spec(r, c, cols) <= rows * cols,
        l_star_map_inv_spec(l_star_map_spec(r, c, cols), cols) == (r, c),
{
    lemma_l_map_round_trip(c, r, cols, rows);
    assert(rows * cols == cols * rows) by (nonlinear_arith);
    assert(l_star_map_spec(r, c, cols) == l_map_spec(c, r, cols)) by (nonlinear_arith);
}

/// Every flat index in `1..=rows*cols` is `L*` of exactly the coordinates that `(L*)^-1`
/// gives, and those coordinates lie inside the matrix.
pub proof fn lemma_l_star_map_inv_round_trip(idx: int, rows: int, cols: int)
    requires
        cols >= 1,
        1 <= idx <= rows * cols,
    ensures
        1 <= l_star_map_inv_spec(idx, cols).0 <= rows,
        1 <= l_star_map_inv_spec(idx, cols).1 <= cols,
        l_star_map_spec(l_star_map_inv_spec(idx, cols).0, l_star_map_inv_spec(idx, cols).1, cols)
            == idx,
{
    assert(rows * cols == cols * rows) by (nonlinear_arith);
    lemma_l_map_inv_round_trip(idx, cols, rows);
    let (r, c) = l_star_map_inv_spec(idx, cols);
    assert(l_star_map_spec(r, c, cols) == l_map_spec(c, r, cols)) by (nonlinear_arith);
}

/// The row-major index of `(r, c)` in a `rows x cols` matrix is the column-major index of
/// `(c, r)` in its `cols x rows` transpose, and the two inverses read the same index back
/// into swapped coordinates.
pub proof fn lemma_l_star_map_is_transposed_l_map(r: int, c: int, idx: int, cols: int)
    ensures
        l_star_map_spec(r, c, cols) == l_map_spec(c, r, cols),
        l_star_map_inv_spec(idx, cols) == (l_map_inv_spec(idx, cols).1, l_map_inv_spec(idx, cols).0),
{
    assert(l_star_map_spec(r, c, cols) == l_map_spec(c, r, cols)) by (nonlinear_arith);
}

} // verus!
