//! The product of two ternary matrices: each cell is the sign of the integer
//! dot product of a row and a column. Naive and cache-tiled multiplication.
use vstd::prelude::*;

use crate::algebra::dot;
use crate::grid::{grid, ints_i32, lemma_flat_index_bounds, lemma_grid_update, lemma_ints_i32_update};
use crate::matrix::{MatrixView, TernaryMatrix, view_from_fn};
use crate::trit::{is_trit, sign, trit_mul};

verus! {

/// The ternary product of `a` and `b`: cell `(i, j)` is the sign of the dot
/// product of row `i` of `a` with column `j` of `b`.
pub open spec fn matmul_view(a: MatrixView, b: MatrixView) -> MatrixView {
    view_from_fn(a.rows, b.cols, |i: int, j: int| sign(dot(a.cells, b.cells, i, j, a.cols)))
}

/// What every multiplication in this crate asks of its operands: well-formed,
/// with matching inner dimension, an accumulator that cannot overflow and a
/// result whose storage can be allocated.
pub open spec fn can_multiply(a: &TernaryMatrix, b: &TernaryMatrix) -> bool {
    &&& a.wf()
    &&& b.wf()
    &&& a@.cols == b@.rows
    &&& a@.cols <= i32::MAX
    &&& a@.rows * b@.cols <= usize::MAX
}

/// A dot product of trits over `k` terms lies in `[-k, k]`.
pub proof fn lemma_dot_trit_bound(a: MatrixView, b: MatrixView, i: int, j: int, k: nat)
    requires
        a.wf(),
        b.wf(),
        0 <= i < a.rows,
        0 <= j < b.cols,
        k <= a.cols,
        a.cols == b.rows,
    ensures
        -k <= dot(a.cells, b.cells, i, j, k) <= k,
    decreases k,
{
    if k > 0 {
        lemma_dot_trit_bound(a, b, i, j, (k - 1) as nat);
        let x = a.cells[i][k - 1];
        let y = b.cells[k - 1][j];
        assert(is_trit(x) && is_trit(y));
        assert(-1 <= x * y <= 1) by (nonlinear_arith)
            requires
                is_trit(x),
                is_trit(y),
        ;
    }
}

/// Naive O(n³) ternary matrix multiplication: each cell accumulates the
/// trit products of a row and a column in an integer, then takes its sign.
pub fn naive_matmul(a: &TernaryMatrix, b: &TernaryMatrix) -> (c: TernaryMatrix)
    requires
        can_multiply(a, b),
    ensures
        c.wf(),
        c@ == matmul_view(a@, b@),
{
    let m = a.rows();
    let k = a.cols();
    let n = b.cols();
    let mut c = TernaryMatrix::zeros(m, n);
    let mut i: usize = 0;
    while i < m
        invariant
            can_multiply(a, b),
            m == a@.rows,
            k == a@.cols,
            n == b@.cols,
            i <= m,
            c.wf(),
            c@.rows == m,
            c@.cols == n,
            forall|r: int, q: int|
                0 <= r < i && 0 <= q < n ==> #[trigger] c@.cells[r][q] == sign(
                    dot(a@.cells, b@.cells, r, q, k as nat),
                ),
        decreases m - i,
    {
        let mut j: usize = 0;
        while j < n
            invariant
                can_multiply(a, b),
                m == a@.rows,
                k == a@.cols,
                n == b@.cols,
                i < m,
                j <= n,
                c.wf(),
                c@.rows == m,
                c@.cols == n,
                forall|r: int, q: int|
                    0 <= r < m && 0 <= q < n && (r < i || (r == i && q < j))
                        ==> #[trigger] c@.cells[r][q] == sign(
                        dot(a@.cells, b@.cells, r, q, k as nat),
                    ),
            decreases n - j,
        {
            // Accumulate in a regular integer, then round.
            let mut acc: i32 = 0;
            let mut p: usize = 0;
            while p < k
                invariant
                    can_multiply(a, b),
                    m == a@.rows,
                    k == a@.cols,
                    n == b@.cols,
                    i < m,
                    j < n,
                    p <= k,
                    acc == dot(a@.cells, b@.cells, i as int, j as int, p as nat),
                decreases k - p,
            {
                proof {
                    lemma_dot_trit_bound(a@, b@, i as int, j as int, p as nat);
                }
                let t = trit_mul(a.get(i, p), b.get(p, j));
                acc = acc + t as i32;
                p = p + 1;
            }
            c.set(i, j, TernaryMatrix::round_to_trit(acc));
            j = j + 1;
        }
        i = i + 1;
    }
    proof {
        assert(c@ =~~= matmul_view(a@, b@));
    }
    c
}

/// The accumulator of `tiled_matmul` part way through: rows before `i0` are
/// complete; in rows `i0..im`, columns before `j0` are complete, columns
/// `j0..jm` hold the first `t` terms of their dot product, and every other
/// cell is still zero.
spec fn tile_expect(
    a: MatrixView,
    b: MatrixView,
    i0: int,
    im: int,
    j0: int,
    jm: int,
    r: int,
    c: int,
    t: int,
) -> int {
    if r < i0 {
        dot(a.cells, b.cells, r, c, a.cols)
    } else if r < im {
        if c < j0 {
            dot(a.cells, b.cells, r, c, a.cols)
        } else if c < jm {
            dot(a.cells, b.cells, r, c, t as nat)
        } else {
            0
        }
    } else {
        0
    }
}

/// Cache-friendly tiled matrix multiplication.
///
/// Works through `tile × tile` blocks of the result and of the inner
/// dimension; the result is the same as that of `naive_matmul`.
pub fn tiled_matmul(a: &TernaryMatrix, b: &TernaryMatrix, tile: usize) -> (c: TernaryMatrix)
    requires
        can_multiply(a, b),
        tile > 0,
    ensures
        c.wf(),
        c@ == matmul_view(a@, b@),
{
    let m = a.rows();
    let k = a.cols();
    let n = b.cols();
    let ghost av = a@;
    let ghost bv = b@;
    let mut acc: Vec<i32> = vec![0i32; m * n];
    proof {
        assert forall|r: int, c: int| 0 <= r < m && 0 <= c < n implies #[trigger] grid(
            ints_i32(acc@),
            m as nat,
            n as nat,
        )[r][c] == tile_expect(av, bv, 0, 0, 0, 0, r, c, 0) by {
            lemma_flat_index_bounds(r, c, m as int, n as int);
        }
    }
    let mut i0: usize = 0;
    while i0 < m
        invariant
            can_multiply(a, b),
            av == a@,
            bv == b@,
            m == av.rows,
            k == av.cols,
            n == bv.cols,
            tile > 0,
            i0 <= m,
            acc@.len() == m * n,
            forall|r: int, c: int|
                0 <= r < m && 0 <= c < n ==> #[trigger] grid(ints_i32(acc@), m as nat, n as nat)[r][c]
                    == tile_expect(av, bv, i0 as int, i0 as int, 0, 0, r, c, 0),
        decreases m - i0,
    {
        let im = if tile <= m - i0 {
            i0 + tile
        } else {
            m
        };
        let mut j0: usize = 0;
        while j0 < n
            invariant
                can_multiply(a, b),
                av == a@,
                bv == b@,
                m == av.rows,
                k == av.cols,
                n == bv.cols,
                tile > 0,
                i0 < im <= m,
                j0 <= n,
                acc@.len() == m * n,
                forall|r: int, c: int|
                    0 <= r < m && 0 <= c < n ==> #[trigger] grid(
                        ints_i32(acc@),
                        m as nat,
                        n as nat,
                    )[r][c] == tile_expect(av, bv, i0 as int, im as int, j0 as int, j0 as int, r, c, 0),
            decreases n - j0,
        {
            let jm = if tile <= n - j0 {
                j0 + tile
            } else {
                n
            };
            let mut p0: usize = 0;
            while p0 < k
                invariant
                    can_multiply(a, b),
                    av == a@,
                    bv == b@,
                    m == av.rows,
                    k == av.cols,
                    n == bv.cols,
                    tile > 0,
                    i0 < im <= m,
                    j0 < jm <= n,
                    p0 <= k,
                    acc@.len() == m * n,
                    forall|r: int, c: int|
                        0 <= r < m && 0 <= c < n ==> #[trigger] grid(
                            ints_i32(acc@),
                            m as nat,
                            n as nat,
                        )[r][c] == tile_expect(
                            av,
                            bv,
                            i0 as int,
                            im as int,
                            j0 as int,
                            jm as int,
                            r,
                            c,
                            p0 as int,
                        ),
                decreases k - p0,
            {
                let pm = if tile <= k - p0 {
                    p0 + tile
                } else {
                    k
                };
                let mut i: usize = i0;
                while i < im
                    invariant
                        can_multiply(a, b),
                        av == a@,
                        bv == b@,
                        m == av.rows,
                        k == av.cols,
                        n == bv.cols,
                        i0 <= i <= im <= m,
                        j0 < jm <= n,
                        p0 < pm <= k,
                        acc@.len() == m * n,
                        forall|r: int, c: int|
                            0 <= r < m && 0 <= c < n ==> #[trigger] grid(
                                ints_i32(acc@),
                                m as nat,
                                n as nat,
                            )[r][c] == tile_expect(
                                av,
                                bv,
                                i0 as int,
                                im as int,
                                j0 as int,
                                jm as int,
                                r,
                                c,
                                if r < i {
                                    pm as int
                                } else {
                                    p0 as int
                                },
                            ),
                    decreases im - i,
                {
                    let mut p: usize = p0;
                    while p < pm
                        invariant
                            can_multiply(a, b),
                            av == a@,
                            bv == b@,
                            m == av.rows,
                            k == av.cols,
                            n == bv.cols,
                            i0 <= i < im <= m,
                            j0 < jm <= n,
                            p0 <= p <= pm <= k,
                            acc@.len() == m * n,
                            forall|r: int, c: int|
                                0 <= r < m && 0 <= c < n ==> #[trigger] grid(
                                    ints_i32(acc@),
                                    m as nat,
                                    n as nat,
                                )[r][c] == tile_expect(
                                    av,
                                    bv,
                                    i0 as int,
                                    im as int,
                                    j0 as int,
                                    jm as int,
                                    r,
                                    c,
                                    if r < i {
                                        pm as int
                                    } else if r == i {
                                        p as int
                                    } else {
                                        p0 as int
                                    },
                                ),
                        decreases pm - p,
                    {
                        let a_val = a.get(i, p);
                        let mut j: usize = j0;
                        while j < jm
                            invariant
                                can_multiply(a, b),
                                av == a@,
                                bv == b@,
                                m == av.rows,
                                k == av.cols,
                                n == bv.cols,
                                i0 <= i < im <= m,
                                j0 <= j <= jm <= n,
                                p0 <= p < pm <= k,
                                a_val == av.cells[i as int][p as int],
                                acc@.len() == m * n,
                                forall|r: int, c: int|
                                    0 <= r < m && 0 <= c < n ==> #[trigger] grid(
                                        ints_i32(acc@),
                                        m as nat,
                                        n as nat,
                                    )[r][c] == tile_expect(
                                        av,
                                        bv,
                                        i0 as int,
                                        im as int,
                                        j0 as int,
                                        jm as int,
                                        r,
                                        c,
                                        if r < i {
                                            pm as int
                                        } else if r == i {
                                            if c < j {
                                                p + 1
                                            } else {
                                                p as int
                                            }
                                        } else {
                                            p0 as int
                                        },
                                    ),
                            decreases jm - j,
                        {
                            proof {
                                lemma_flat_index_bounds(i as int, j as int, m as int, n as int);
                                lemma_dot_trit_bound(av, bv, i as int, j as int, p as nat);
                            }
                            let idx = i * n + j;
                            let t = trit_mul(a_val, b.get(p, j));
                            let ghost old_acc = acc@;
                            proof {
                                assert(grid(ints_i32(acc@), m as nat, n as nat)[i as int][j as int]
                                    == acc@[idx as int] as int);
                            }
                            let updated = acc[idx] + t as i32;
                            acc.set(idx, updated);
                            proof {
                                lemma_ints_i32_update(old_acc, idx as int, updated);
                                lemma_grid_update(
                                    ints_i32(old_acc),
                                    m as nat,
                                    n as nat,
                                    i as int,
                                    j as int,
                                    updated as int,
                                );
                            }
                            j = j + 1;
                        }
                        p = p + 1;
                    }
                    i = i + 1;
                }
                p0 = pm;
            }
            j0 = jm;
        }
        i0 = im;
    }
    // Round every accumulated cell to its sign.
    let mut data: Vec<i8> = Vec::new();
    let mut q: usize = 0;
    while q < acc.len()
        invariant
            q <= acc@.len(),
            data@.len() == q,
            forall|x: int| 0 <= x < q ==> #[trigger] data@[x] as int == sign(acc@[x] as int),
        decreases acc@.len() - q,
    {
        data.push(TernaryMatrix::round_to_trit(acc[q]));
        q = q + 1;
    }
    let c = TernaryMatrix::from_vec(m, n, data);
    proof {
        assert forall|r: int, col: int| 0 <= r < m && 0 <= col < n implies #[trigger] c@.cells[r][col]
            == matmul_view(av, bv).cells[r][col] by {
            lemma_flat_index_bounds(r, col, m as int, n as int);
            assert(grid(ints_i32(acc@), m as nat, n as nat)[r][col] == tile_expect(
                av,
                bv,
                m as int,
                m as int,
                0,
                0,
                r,
                col,
                0,
            ));
        }
        assert(c@ =~~= matmul_view(a@, b@));
    }
    c
}

} // verus!
