//! Integer matrices as sequences of rows, their sums and products, and the
//! block identities behind Strassen's algorithm.
use vstd::prelude::*;

verus! {

/// Dot product of row `i` of `a` with column `j` of `b`, over the first `k` terms.
pub open spec fn dot(a: Seq<Seq<int>>, b: Seq<Seq<int>>, i: int, j: int, k: nat) -> int
    decreases k,
{
    if k == 0 {
        0
    } else {
        dot(a, b, i, j, (k - 1) as nat) + a[i][k - 1] * b[k - 1][j]
    }
}

/// `a` is an `n × n` matrix.
pub open spec fn is_square(a: Seq<Seq<int>>, n: nat) -> bool {
    a.len() == n && forall|i: int| 0 <= i < n ==> #[trigger] a[i].len() == n
}

/// Every entry of `a` lies in `[-e, e]`.
pub open spec fn bounded(a: Seq<Seq<int>>, e: int) -> bool {
    forall|i: int, j: int|
        0 <= i < a.len() && 0 <= j < a[i].len() ==> -e <= #[trigger] a[i][j] <= e
}

/// Entrywise sum.
pub open spec fn madd(a: Seq<Seq<int>>, b: Seq<Seq<int>>) -> Seq<Seq<int>> {
    Seq::new(a.len(), |i: int| Seq::new(a[i].len(), |j: int| a[i][j] + b[i][j]))
}

/// Entrywise difference.
pub open spec fn msub(a: Seq<Seq<int>>, b: Seq<Seq<int>>) -> Seq<Seq<int>> {
    Seq::new(a.len(), |i: int| Seq::new(a[i].len(), |j: int| a[i][j] - b[i][j]))
}

/// Exact product of two square matrices of the size of `a`.
pub open spec fn mmul(a: Seq<Seq<int>>, b: Seq<Seq<int>>) -> Seq<Seq<int>> {
    Seq::new(a.len(), |i: int| Seq::new(a.len(), |j: int| dot(a, b, i, j, a.len())))
}

/// The `h × h` block of `a` whose top-left corner is `(r0, c0)`.
pub open spec fn block(a: Seq<Seq<int>>, h: nat, r0: int, c0: int) -> Seq<Seq<int>> {
    Seq::new(h, |i: int| Seq::new(h, |j: int| a[r0 + i][c0 + j]))
}

/// The `2h × 2h` matrix made of four `h × h` quadrants.
pub open spec fn join4(
    c11: Seq<Seq<int>>,
    c12: Seq<Seq<int>>,
    c21: Seq<Seq<int>>,
    c22: Seq<Seq<int>>,
    h: nat,
) -> Seq<Seq<int>> {
    Seq::new(
        2 * h,
        |i: int|
            Seq::new(
                2 * h,
                |j: int|
                    if i < h {
                        if j < h {
                            c11[i][j]
                        } else {
                            c12[i][j - h]
                        }
                    } else {
                        if j < h {
                            c21[i - h][j]
                        } else {
                            c22[i - h][j - h]
                        }
                    },
            ),
    )
}

/// The seven Strassen products of the quadrants of `a` and `b`, joined back
/// into the four quadrants of the result.
pub open spec fn strassen_step(a: Seq<Seq<int>>, b: Seq<Seq<int>>, h: nat) -> Seq<Seq<int>> {
    let a11 = block(a, h, 0, 0);
    let a12 = block(a, h, 0, h as int);
    let a21 = block(a, h, h as int, 0);
    let a22 = block(a, h, h as int, h as int);
    let b11 = block(b, h, 0, 0);
    let b12 = block(b, h, 0, h as int);
    let b21 = block(b, h, h as int, 0);
    let b22 = block(b, h, h as int, h as int);
    let m1 = mmul(madd(a11, a22), madd(b11, b22));
    let m2 = mmul(madd(a21, a22), b11);
    let m3 = mmul(a11, msub(b12, b22));
    let m4 = mmul(a22, msub(b21, b11));
    let m5 = mmul(madd(a11, a12), b22);
    let m6 = mmul(msub(a21, a11), madd(b11, b12));
    let m7 = mmul(msub(a12, a22), madd(b21, b22));
    join4(
        madd(msub(madd(m1, m4), m5), m7),
        madd(m3, m5),
        madd(m2, m4),
        madd(msub(madd(m1, m3), m2), m6),
        h,
    )
}

/// The terms `h..h+t` of a dot product are the first `t` terms of another one
/// whose entries match them.
pub proof fn lemma_dot_shift(
    a: Seq<Seq<int>>,
    b: Seq<Seq<int>>,
    i: int,
    j: int,
    a2: Seq<Seq<int>>,
    b2: Seq<Seq<int>>,
    i2: int,
    j2: int,
    h: nat,
    t: nat,
)
    requires
        forall|p: int| 0 <= p < t ==> a[i][h + p] == #[trigger] a2[i2][p],
        forall|p: int| 0 <= p < t ==> b[h + p][j] == #[trigger] b2[p][j2],
    ensures
        dot(a, b, i, j, h + t) == dot(a, b, i, j, h) + dot(a2, b2, i2, j2, t),
    decreases t,
{
    if t > 0 {
        lemma_dot_shift(a, b, i, j, a2, b2, i2, j2, h, (t - 1) as nat);
        let p = t - 1;
        assert(a[i][h + p] == a2[i2][p]);
        assert(b[h + p][j] == b2[p][j2]);
    }
}

/// The dot product is additive in its left argument.
pub proof fn lemma_dot_add_left(x: Seq<Seq<int>>, y: Seq<Seq<int>>, c: Seq<Seq<int>>, i: int, j: int, k: nat)
    requires
        0 <= i < x.len(),
        k <= x[i].len(),
    ensures
        dot(madd(x, y), c, i, j, k) == dot(x, c, i, j, k) + dot(y, c, i, j, k),
    decreases k,
{
    if k > 0 {
        lemma_dot_add_left(x, y, c, i, j, (k - 1) as nat);
        let p = k - 1;
        assert(madd(x, y)[i][p] == x[i][p] + y[i][p]);
        assert((x[i][p] + y[i][p]) * c[p][j] == x[i][p] * c[p][j] + y[i][p] * c[p][j])
            by (nonlinear_arith);
    }
}

/// The dot product is additive in its right argument.
pub proof fn lemma_dot_add_right(c: Seq<Seq<int>>, x: Seq<Seq<int>>, y: Seq<Seq<int>>, i: int, j: int, k: nat)
    requires
        k <= x.len(),
        0 <= j,
        forall|p: int| 0 <= p < k ==> j < #[trigger] x[p].len(),
    ensures
        dot(c, madd(x, y), i, j, k) == dot(c, x, i, j, k) + dot(c, y, i, j, k),
    decreases k,
{
    if k > 0 {
        lemma_dot_add_right(c, x, y, i, j, (k - 1) as nat);
        let p = k - 1;
        assert(0 <= j < x[p].len());
        assert(madd(x, y)[p][j] == x[p][j] + y[p][j]);
        assert(c[i][p] * (x[p][j] + y[p][j]) == c[i][p] * x[p][j] + c[i][p] * y[p][j])
            by (nonlinear_arith);
    }
}

/// The dot product is subtractive in its left argument.
pub proof fn lemma_dot_sub_left(x: Seq<Seq<int>>, y: Seq<Seq<int>>, c: Seq<Seq<int>>, i: int, j: int, k: nat)
    requires
        0 <= i < x.len(),
        k <= x[i].len(),
    ensures
        dot(msub(x, y), c, i, j, k) == dot(x, c, i, j, k) - dot(y, c, i, j, k),
    decreases k,
{
    if k > 0 {
        lemma_dot_sub_left(x, y, c, i, j, (k - 1) as nat);
        let p = k - 1;
        assert(msub(x, y)[i][p] == x[i][p] - y[i][p]);
        assert((x[i][p] - y[i][p]) * c[p][j] == x[i][p] * c[p][j] - y[i][p] * c[p][j])
            by (nonlinear_arith);
    }
}

/// The dot product is subtractive in its right argument.
pub proof fn lemma_dot_sub_right(c: Seq<Seq<int>>, x: Seq<Seq<int>>, y: Seq<Seq<int>>, i: int, j: int, k: nat)
    requires
        k <= x.len(),
        0 <= j,
        forall|p: int| 0 <= p < k ==> j < #[trigger] x[p].len(),
    ensures
        dot(c, msub(x, y), i, j, k) == dot(c, x, i, j, k) - dot(c, y, i, j, k),
    decreases k,
{
    if k > 0 {
        lemma_dot_sub_right(c, x, y, i, j, (k - 1) as nat);
        let p = k - 1;
        assert(0 <= j < x[p].len());
        assert(msub(x, y)[p][j] == x[p][j] - y[p][j]);
        assert(c[i][p] * (x[p][j] - y[p][j]) == c[i][p] * x[p][j] - c[i][p] * y[p][j])
            by (nonlinear_arith);
    }
}

/// An entry of a `2h × 2h` product is the sum of two products of `h × h` blocks.
pub proof fn lemma_dot_blocks(a: Seq<Seq<int>>, b: Seq<Seq<int>>, h: nat, r0: int, c0: int, i: int, j: int)
    requires
        is_square(a, 2 * h),
        is_square(b, 2 * h),
        r0 == 0 || r0 == h,
        c0 == 0 || c0 == h,
        0 <= i < h,
        0 <= j < h,
    ensures
        dot(a, b, r0 + i, c0 + j, 2 * h) == dot(block(a, h, r0, 0), block(b, h, 0, c0), i, j, h)
            + dot(block(a, h, r0, h as int), block(b, h, h as int, c0), i, j, h),
{
    let al = block(a, h, r0, 0);
    let bl = block(b, h, 0, c0);
    let ah = block(a, h, r0, h as int);
    let bh = block(b, h, h as int, c0);
    assert forall|p: int| 0 <= p < h implies a[r0 + i][0 + p] == #[trigger] al[i][p] by {
        assert(0 + p == p);
    }
    assert forall|p: int| 0 <= p < h implies b[0 + p][c0 + j] == #[trigger] bl[p][j] by {
        assert(0 + p == p);
    }
    lemma_dot_shift(a, b, r0 + i, c0 + j, al, bl, i, j, 0, h);
    assert forall|p: int| 0 <= p < h implies a[r0 + i][h + p] == #[trigger] ah[i][p] by {}
    assert forall|p: int| 0 <= p < h implies b[h + p][c0 + j] == #[trigger] bh[p][j] by {}
    lemma_dot_shift(a, b, r0 + i, c0 + j, ah, bh, i, j, h, h);
    assert(0 + h == h);
    assert(h + h == 2 * h);
}

/// The quadrants of `a` and `b` are square, and so are their sums and differences.
proof fn lemma_block_shapes(a: Seq<Seq<int>>, b: Seq<Seq<int>>, h: nat)
    requires
        is_square(a, 2 * h),
        is_square(b, 2 * h),
    ensures
        forall|r0: int, c0: int| is_square(#[trigger] block(a, h, r0, c0), h),
        forall|r0: int, c0: int| is_square(#[trigger] block(b, h, r0, c0), h),
        forall|x: Seq<Seq<int>>, y: Seq<Seq<int>>|
            is_square(x, h) ==> is_square(#[trigger] madd(x, y), h),
        forall|x: Seq<Seq<int>>, y: Seq<Seq<int>>|
            is_square(x, h) ==> is_square(#[trigger] msub(x, y), h),
        forall|x: Seq<Seq<int>>, y: Seq<Seq<int>>|
            is_square(x, h) ==> is_square(#[trigger] mmul(x, y), h),
{
}

/// Dot product of row `i` of `x` and column `j` of `y` over `h` terms.
spec fn pd(x: Seq<Seq<int>>, y: Seq<Seq<int>>, i: int, j: int, h: nat) -> int {
    dot(x, y, i, j, h)
}

/// Strassen's identities hold at each entry `(i, j)` of the four quadrants.
proof fn lemma_strassen_entry(a: Seq<Seq<int>>, b: Seq<Seq<int>>, h: nat, i: int, j: int)
    requires
        is_square(a, 2 * h),
        is_square(b, 2 * h),
        0 <= i < h,
        0 <= j < h,
    ensures
        strassen_step(a, b, h)[i][j] == mmul(a, b)[i][j],
        strassen_step(a, b, h)[i][j + h] == mmul(a, b)[i][j + h],
        strassen_step(a, b, h)[i + h][j] == mmul(a, b)[i + h][j],
        strassen_step(a, b, h)[i + h][j + h] == mmul(a, b)[i + h][j + h],
{
    let hh = h as int;
    let a11 = block(a, h, 0, 0);
    let a12 = block(a, h, 0, hh);
    let a21 = block(a, h, hh, 0);
    let a22 = block(a, h, hh, hh);
    let b11 = block(b, h, 0, 0);
    let b12 = block(b, h, 0, hh);
    let b21 = block(b, h, hh, 0);
    let b22 = block(b, h, hh, hh);
    lemma_block_shapes(a, b, h);
    assert(is_square(a11, h) && is_square(a12, h) && is_square(a21, h) && is_square(a22, h));
    assert(is_square(b11, h) && is_square(b12, h) && is_square(b21, h) && is_square(b22, h));

    let m1 = mmul(madd(a11, a22), madd(b11, b22));
    let m2 = mmul(madd(a21, a22), b11);
    let m3 = mmul(a11, msub(b12, b22));
    let m4 = mmul(a22, msub(b21, b11));
    let m5 = mmul(madd(a11, a12), b22);
    let m6 = mmul(msub(a21, a11), madd(b11, b12));
    let m7 = mmul(msub(a12, a22), madd(b21, b22));

    // m1 = (A11 + A22)(B11 + B22)
    lemma_dot_add_left(a11, a22, madd(b11, b22), i, j, h);
    lemma_dot_add_right(a11, b11, b22, i, j, h);
    lemma_dot_add_right(a22, b11, b22, i, j, h);
    // m2 = (A21 + A22) B11
    lemma_dot_add_left(a21, a22, b11, i, j, h);
    // m3 = A11 (B12 - B22)
    lemma_dot_sub_right(a11, b12, b22, i, j, h);
    // m4 = A22 (B21 - B11)
    lemma_dot_sub_right(a22, b21, b11, i, j, h);
    // m5 = (A11 + A12) B22
    lemma_dot_add_left(a11, a12, b22, i, j, h);
    // m6 = (A21 - A11)(B11 + B12)
    lemma_dot_sub_left(a21, a11, madd(b11, b12), i, j, h);
    lemma_dot_add_right(a21, b11, b12, i, j, h);
    lemma_dot_add_right(a11, b11, b12, i, j, h);
    // m7 = (A12 - A22)(B21 + B22)
    lemma_dot_sub_left(a12, a22, madd(b21, b22), i, j, h);
    lemma_dot_add_right(a12, b21, b22, i, j, h);
    lemma_dot_add_right(a22, b21, b22, i, j, h);

    assert(m1[i][j] == pd(a11, b11, i, j, h) + pd(a11, b22, i, j, h) + pd(a22, b11, i, j, h)
        + pd(a22, b22, i, j, h));
    assert(m2[i][j] == pd(a21, b11, i, j, h) + pd(a22, b11, i, j, h));
    assert(m3[i][j] == pd(a11, b12, i, j, h) - pd(a11, b22, i, j, h));
    assert(m4[i][j] == pd(a22, b21, i, j, h) - pd(a22, b11, i, j, h));
    assert(m5[i][j] == pd(a11, b22, i, j, h) + pd(a12, b22, i, j, h));
    assert(m6[i][j] == pd(a21, b11, i, j, h) + pd(a21, b12, i, j, h) - pd(a11, b11, i, j, h)
        - pd(a11, b12, i, j, h));
    assert(m7[i][j] == pd(a12, b21, i, j, h) + pd(a12, b22, i, j, h) - pd(a22, b21, i, j, h)
        - pd(a22, b22, i, j, h));

    // The four quadrants of the exact product.
    lemma_dot_blocks(a, b, h, 0, 0, i, j);
    lemma_dot_blocks(a, b, h, 0, hh, i, j);
    lemma_dot_blocks(a, b, h, hh, 0, i, j);
    lemma_dot_blocks(a, b, h, hh, hh, i, j);
    assert(mmul(a, b)[i][j] == pd(a11, b11, i, j, h) + pd(a12, b21, i, j, h));
    assert(mmul(a, b)[i][j + h] == pd(a11, b12, i, j, h) + pd(a12, b22, i, j, h));
    assert(mmul(a, b)[i + h][j] == pd(a21, b11, i, j, h) + pd(a22, b21, i, j, h));
    assert(mmul(a, b)[i + h][j + h] == pd(a21, b12, i, j, h) + pd(a22, b22, i, j, h));
}

/// Strassen's seven block products, recombined, give the exact product of
/// two `2h × 2h` matrices.
pub proof fn lemma_strassen_step(a: Seq<Seq<int>>, b: Seq<Seq<int>>, h: nat)
    requires
        is_square(a, 2 * h),
        is_square(b, 2 * h),
    ensures
        strassen_step(a, b, h) == mmul(a, b),
{
    let s = strassen_step(a, b, h);
    let p = mmul(a, b);
    assert forall|r: int| 0 <= r < 2 * h implies #[trigger] s[r] =~= p[r] by {
        assert forall|c: int| 0 <= c < 2 * h implies s[r][c] == p[r][c] by {
            let i = if r < h { r } else { r - h };
            let j = if c < h { c } else { c - h };
            lemma_strassen_entry(a, b, h, i, j);
        }
    }
    assert(s =~= p);
}

/// A dot product over `k` terms of entries bounded by `e1` and `e2` is
/// bounded by `k * e1 * e2`.
pub proof fn lemma_dot_bound(a: Seq<Seq<int>>, b: Seq<Seq<int>>, n: nat, i: int, j: int, k: nat, e1: int, e2: int)
    requires
        is_square(a, n),
        is_square(b, n),
        bounded(a, e1),
        bounded(b, e2),
        0 <= i < n,
        0 <= j < n,
        k <= n,
        0 <= e1,
        0 <= e2,
    ensures
        -(k * (e1 * e2)) <= dot(a, b, i, j, k) <= k * (e1 * e2),
    decreases k,
{
    if k > 0 {
        lemma_dot_bound(a, b, n, i, j, (k - 1) as nat, e1, e2);
        let x = a[i][k - 1];
        let y = b[k - 1][j];
        assert(a[i].len() == n && b[k - 1].len() == n);
        assert(-e1 <= x <= e1 && -e2 <= y <= e2);
        assert(-(e1 * e2) <= x * y <= e1 * e2) by (nonlinear_arith)
            requires
                -e1 <= x <= e1,
                -e2 <= y <= e2,
        ;
        assert(k * (e1 * e2) == (k - 1) * (e1 * e2) + e1 * e2) by (nonlinear_arith);
    }
}

/// Sums and differences of bounded square matrices are bounded by the sum of
/// the bounds.
pub proof fn lemma_bounded_sum(x: Seq<Seq<int>>, y: Seq<Seq<int>>, n: nat, e1: int, e2: int)
    requires
        is_square(x, n),
        is_square(y, n),
        bounded(x, e1),
        bounded(y, e2),
    ensures
        is_square(madd(x, y), n),
        is_square(msub(x, y), n),
        bounded(madd(x, y), e1 + e2),
        bounded(msub(x, y), e1 + e2),
{
    assert forall|i: int, j: int|
        0 <= i < n && 0 <= j < n implies -(e1 + e2) <= #[trigger] madd(x, y)[i][j] <= e1 + e2
        && -(e1 + e2) <= msub(x, y)[i][j] <= e1 + e2 by {
        assert(x[i].len() == n && y[i].len() == n);
        assert(-e1 <= x[i][j] <= e1);
        assert(-e2 <= y[i][j] <= e2);
    }
}

/// The exact product of `n × n` matrices bounded by `e1` and `e2` is bounded
/// by `n * (e1 * e2)`.
pub proof fn lemma_bounded_product(x: Seq<Seq<int>>, y: Seq<Seq<int>>, n: nat, e1: int, e2: int)
    requires
        is_square(x, n),
        is_square(y, n),
        bounded(x, e1),
        bounded(y, e2),
        0 <= e1,
        0 <= e2,
    ensures
        is_square(mmul(x, y), n),
        bounded(mmul(x, y), n * (e1 * e2)),
{
    assert forall|i: int, j: int| 0 <= i < n && 0 <= j < n implies -(n * (e1 * e2)) <= #[trigger] mmul(x, y)[i][j]
        <= n * (e1 * e2) by {
        lemma_dot_bound(x, y, n, i, j, n, e1, e2);
    }
}

/// Every single product of entries, and every partial sum of a dot product,
/// of two `n × n` matrices fits in an `i32`.
pub open spec fn products_fit(a: Seq<Seq<int>>, b: Seq<Seq<int>>, n: nat) -> bool {
    &&& forall|i: int, j: int, p: int|
        #![trigger a[i][p], b[p][j]]
        0 <= i < n && 0 <= j < n && 0 <= p < n ==> i32::MIN <= a[i][p] * b[p][j] <= i32::MAX
    &&& forall|i: int, j: int, p: nat|
        0 <= i < n && 0 <= j < n && p <= n ==> i32::MIN <= #[trigger] dot(a, b, i, j, p)
            <= i32::MAX
}

/// Entries bounded by `e1` and `e2` with `n * (e1 * e2)` within `i32` keep
/// every product and partial sum of the triple loop within `i32`.
pub proof fn lemma_products_fit(a: Seq<Seq<int>>, b: Seq<Seq<int>>, n: nat, e1: int, e2: int)
    requires
        is_square(a, n),
        is_square(b, n),
        bounded(a, e1),
        bounded(b, e2),
        0 <= e1,
        0 <= e2,
        n * (e1 * e2) <= i32::MAX,
    ensures
        products_fit(a, b, n),
{
    assert forall|i: int, j: int, p: int|
        #![trigger a[i][p], b[p][j]]
        0 <= i < n && 0 <= j < n && 0 <= p < n implies i32::MIN <= a[i][p] * b[p][j]
        <= i32::MAX by {
        let x = a[i][p];
        let y = b[p][j];
        assert(a[i].len() == n && b[p].len() == n);
        assert(-e1 <= x <= e1 && -e2 <= y <= e2);
        assert(-(e1 * e2) <= x * y <= e1 * e2) by (nonlinear_arith)
            requires
                -e1 <= x <= e1,
                -e2 <= y <= e2,
        ;
        assert(e1 * e2 <= n * (e1 * e2)) by (nonlinear_arith)
            requires
                1 <= n,
                0 <= e1,
                0 <= e2,
        ;
    }
    assert forall|i: int, j: int, p: nat| 0 <= i < n && 0 <= j < n && p <= n implies i32::MIN
        <= #[trigger] dot(a, b, i, j, p) <= i32::MAX by {
        lemma_dot_bound(a, b, n, i, j, p, e1, e2);
        assert(p * (e1 * e2) <= n * (e1 * e2)) by (nonlinear_arith)
            requires
                p <= n,
                0 <= e1,
                0 <= e2,
        ;
    }
}

/// The blocks of a matrix bounded by `e` are bounded by `e`.
pub proof fn lemma_bounded_blocks(a: Seq<Seq<int>>, h: nat, e: int)
    requires
        is_square(a, 2 * h),
        bounded(a, e),
    ensures
        forall|r0: int, c0: int|
            (r0 == 0 || r0 == h) && (c0 == 0 || c0 == h) ==> #[trigger] bounded(
                block(a, h, r0, c0),
                e,
            ) && is_square(block(a, h, r0, c0), h),
{
    assert forall|r0: int, c0: int| (r0 == 0 || r0 == h) && (c0 == 0 || c0 == h) implies #[trigger] bounded(
        block(a, h, r0, c0),
        e,
    ) && is_square(block(a, h, r0, c0), h) by {
        assert forall|i: int, j: int|
            0 <= i < h && 0 <= j < h implies -e <= #[trigger] block(a, h, r0, c0)[i][j] <= e by {
            assert(a[r0 + i].len() == 2 * h);
        }
    }
}

/// Joining the four quadrants of a `2h × 2h` matrix gives back the matrix.
pub proof fn lemma_join_blocks(a: Seq<Seq<int>>, h: nat)
    requires
        is_square(a, 2 * h),
    ensures
        join4(
            block(a, h, 0, 0),
            block(a, h, 0, h as int),
            block(a, h, h as int, 0),
            block(a, h, h as int, h as int),
            h,
        ) == a,
{
    let hh = h as int;
    let j = join4(block(a, h, 0, 0), block(a, h, 0, hh), block(a, h, hh, 0), block(a, h, hh, hh), h);
    assert forall|r: int| 0 <= r < 2 * h implies #[trigger] j[r] =~= a[r] by {
        assert(a[r].len() == 2 * h);
    }
    assert(j =~= a);
}

} // verus!
