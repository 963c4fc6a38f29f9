//! Row-major storage: a flat sequence read as a grid of rows and columns,
//! and the index arithmetic that goes with it.
use vstd::prelude::*;

verus! {

/// Reads a row-major flat sequence as a `rows × cols` grid.
pub open spec fn grid(v: Seq<int>, rows: nat, cols: nat) -> Seq<Seq<int>> {
    Seq::new(rows, |i: int| Seq::new(cols, |j: int| v[i * cols + j]))
}

/// The elements of a byte vector as integers.
pub open spec fn ints_i8(s: Seq<i8>) -> Seq<int> {
    s.map_values(|x: i8| x as int)
}

/// The elements of an `i32` vector as integers.
pub open spec fn ints_i32(s: Seq<i32>) -> Seq<int> {
    s.map_values(|x: i32| x as int)
}

/// Cell (i, j) of a `rows × cols` grid lies inside the flat storage.
pub proof fn lemma_flat_index_bounds(i: int, j: int, rows: int, cols: int)
    requires
        0 <= i < rows,
        0 <= j < cols,
    ensures
        0 <= i * cols,
        0 <= i * cols + j < rows * cols,
        i * cols + cols <= rows * cols,
{
    assert(0 <= i * cols) by (nonlinear_arith)
        requires
            0 <= i,
            0 <= cols,
    ;
    assert(i * cols + cols <= rows * cols) by (nonlinear_arith)
        requires
            i + 1 <= rows,
            0 <= cols,
    ;
}

/// Distinct cells have distinct flat indices.
pub proof fn lemma_flat_index_injective(i1: int, j1: int, i2: int, j2: int, cols: int)
    requires
        0 <= i1,
        0 <= i2,
        0 <= j1 < cols,
        0 <= j2 < cols,
        i1 * cols + j1 == i2 * cols + j2,
    ensures
        i1 == i2,
        j1 == j2,
{
    if i1 < i2 {
        assert(i1 * cols + cols <= i2 * cols) by (nonlinear_arith)
            requires
                i1 + 1 <= i2,
                0 <= cols,
        ;
    } else if i2 < i1 {
        assert(i2 * cols + cols <= i1 * cols) by (nonlinear_arith)
            requires
                i2 + 1 <= i1,
                0 <= cols,
        ;
    }
}

/// Every flat index below `rows * cols` is the index of one cell.
pub proof fn lemma_flat_index_decompose(k: int, rows: int, cols: int)
    requires
        0 <= k < rows * cols,
        0 <= rows,
    ensures
        cols > 0,
        0 <= k / cols < rows,
        0 <= k % cols < cols,
        k == (k / cols) * cols + k % cols,
{
    if cols <= 0 {
        assert(rows * cols <= 0) by (nonlinear_arith)
            requires
                rows >= 0,
                cols <= 0,
        ;
    }
    vstd::arithmetic::div_mod::lemma_fundamental_div_mod(k, cols);
    vstd::arithmetic::mul::lemma_mul_is_commutative(cols, k / cols);
    if k / cols >= rows {
        assert((k / cols) * cols >= rows * cols) by (nonlinear_arith)
            requires
                k / cols >= rows,
                cols > 0,
        ;
    }
}

/// Writing one flat element writes one cell of the grid.
pub proof fn lemma_grid_update(v: Seq<int>, rows: nat, cols: nat, i: int, j: int, x: int)
    requires
        v.len() == rows * cols,
        0 <= i < rows,
        0 <= j < cols,
    ensures
        0 <= i * cols + j < v.len(),
        grid(v.update(i * cols + j, x), rows, cols) == grid(v, rows, cols).update(
            i,
            grid(v, rows, cols)[i].update(j, x),
        ),
{
    lemma_flat_index_bounds(i, j, rows as int, cols as int);
    let g = grid(v, rows, cols);
    let g2 = grid(v.update(i * cols + j, x), rows, cols);
    let expected = g.update(i, g[i].update(j, x));
    assert forall|a: int| 0 <= a < rows implies #[trigger] g2[a] =~= expected[a] by {
        assert forall|b: int| 0 <= b < cols implies g2[a][b] == expected[a][b] by {
            lemma_flat_index_bounds(a, b, rows as int, cols as int);
            if a * cols + b == i * cols + j {
                lemma_flat_index_injective(a, b, i, j, cols as int);
            }
        }
    }
    assert(g2 =~= expected);
}

/// Integer views commute with writing one element.
pub proof fn lemma_ints_i8_update(s: Seq<i8>, k: int, x: i8)
    requires
        0 <= k < s.len(),
    ensures
        ints_i8(s.update(k, x)) == ints_i8(s).update(k, x as int),
{
    assert(ints_i8(s.update(k, x)) =~= ints_i8(s).update(k, x as int));
}

/// Integer views commute with writing one element.
pub proof fn lemma_ints_i32_update(s: Seq<i32>, k: int, x: i32)
    requires
        0 <= k < s.len(),
    ensures
        ints_i32(s.update(k, x)) == ints_i32(s).update(k, x as int),
{
    assert(ints_i32(s.update(k, x)) =~= ints_i32(s).update(k, x as int));
}

} // verus!
