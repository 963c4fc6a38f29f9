//! Strassen's algorithm over exact integer matrices, rounded to trits at the end.
use vstd::prelude::*;

use crate::algebra::{
    block, bounded, dot, is_square, join4, lemma_bounded_blocks, lemma_bounded_product,
    lemma_bounded_sum, lemma_products_fit, lemma_strassen_step, madd, mmul, msub, products_fit,
    strassen_step,
};
use crate::grid::{
    grid, ints_i32, lemma_flat_index_bounds, lemma_flat_index_decompose, lemma_grid_update,
    lemma_ints_i32_update,
};
use crate::matrix::{TernaryMatrix, view_from_fn};
use crate::product::{can_multiply, matmul_view, naive_matmul};
use crate::trit::sign;

verus! {

/// `n` is a power of two.
pub open spec fn is_pow2(n: nat) -> bool
    decreases n,
{
    if n == 0 {
        false
    } else if n == 1 {
        true
    } else {
        n % 2 == 0 && is_pow2(n / 2)
    }
}

/// Sizes on which Strassen's recursion halves evenly down to the threshold:
/// either the matrix is already small enough, or its size is a power of two
/// and the threshold is at least one.
pub open spec fn strassen_size_ok(n: nat, threshold: nat) -> bool {
    n <= threshold || (is_pow2(n) && threshold >= 1)
}

/// Entries of `a + b` and `a - b` all fit in an `i32`.
spec fn sums_fit(a: Seq<Seq<int>>, b: Seq<Seq<int>>) -> bool {
    forall|i: int, j: int|
        0 <= i < a.len() && 0 <= j < a[i].len() ==> i32::MIN <= #[trigger] a[i][j] + b[i][j]
            <= i32::MAX && i32::MIN <= a[i][j] - b[i][j] <= i32::MAX
}

/// Square integer matrix, row-major.
#[derive(Clone)]
struct IntMatrix {
    n: usize,
    data: Vec<i32>,
}

impl View for IntMatrix {
    type V = Seq<Seq<int>>;

    closed spec fn view(&self) -> Seq<Seq<int>> {
        grid(ints_i32(self.data@), self.n as nat, self.n as nat)
    }
}

impl IntMatrix {
    /// The storage holds exactly `n * n` entries.
    spec fn wf(&self) -> bool {
        &&& self.data@.len() == self.n * self.n
        &&& self.n * self.n <= usize::MAX
    }

    /// A well-formed matrix is an `n × n` grid.
    proof fn lemma_square(&self)
        requires
            self.wf(),
        ensures
            is_square(self@, self.n as nat),
    {
    }

    fn zeros(n: usize) -> (m: Self)
        requires
            n * n <= usize::MAX,
        ensures
            m.wf(),
            m.n == n,
            is_square(m@, n as nat),
            forall|i: int, j: int| 0 <= i < n && 0 <= j < n ==> #[trigger] m@[i][j] == 0,
    {
        let m = Self { n, data: vec![0i32; n * n] };
        proof {
            assert forall|i: int, j: int| 0 <= i < n && 0 <= j < n implies #[trigger] m@[i][j] == 0 by {
                lemma_flat_index_bounds(i, j, n as int, n as int);
            }
        }
        m
    }

    fn from_ternary(m: &TernaryMatrix) -> (r: Self)
        requires
            m.wf(),
            m@.rows == m@.cols,
        ensures
            r.wf(),
            r.n == m@.rows,
            r@ == m@.cells,
            bounded(r@, 1),
    {
        let n = m.rows();
        let mut r = Self::zeros(n);
        let mut i: usize = 0;
        while i < n
            invariant
                m.wf(),
                n == m@.rows,
                n == m@.cols,
                i <= n,
                r.wf(),
                r.n == n,
                forall|x: int, y: int|
                    0 <= x < n && 0 <= y < n ==> #[trigger] r@[x][y] == if x < i {
                        m@.cells[x][y]
                    } else {
                        0
                    },
            decreases n - i,
        {
            let mut j: usize = 0;
            while j < n
                invariant
                    m.wf(),
                    n == m@.rows,
                    n == m@.cols,
                    i < n,
                    j <= n,
                    r.wf(),
                    r.n == n,
                    forall|x: int, y: int|
                        0 <= x < n && 0 <= y < n ==> #[trigger] r@[x][y] == if x < i || (x == i
                            && y < j) {
                            m@.cells[x][y]
                        } else {
                            0
                        },
                decreases n - j,
            {
                let v = m.get(i, j);
                r.set(i, j, v as i32);
                j = j + 1;
            }
            i = i + 1;
        }
        proof {
            assert(r@ =~~= m@.cells);
        }
        r
    }

    fn to_ternary(&self) -> (t: TernaryMatrix)
        requires
            self.wf(),
        ensures
            t.wf(),
            t@ == view_from_fn(self.n as nat, self.n as nat, |i: int, j: int| sign(self@[i][j])),
    {
        let mut data: Vec<i8> = Vec::new();
        let mut q: usize = 0;
        while q < self.data.len()
            invariant
                q <= self.data@.len(),
                data@.len() == q,
                forall|x: int|
                    0 <= x < q ==> #[trigger] data@[x] as int == sign(self.data@[x] as int),
            decreases self.data@.len() - q,
        {
            data.push(TernaryMatrix::round_to_trit(self.data[q]));
            q = q + 1;
        }
        let t = TernaryMatrix::from_vec(self.n, self.n, data);
        proof {
            assert forall|i: int, j: int| 0 <= i < self.n && 0 <= j < self.n implies #[trigger] t@.cells[i][j]
                == sign(self@[i][j]) by {
                lemma_flat_index_bounds(i, j, self.n as int, self.n as int);
            }
            assert(t@ =~~= view_from_fn(
                self.n as nat,
                self.n as nat,
                |i: int, j: int| sign(self@[i][j]),
            ));
        }
        t
    }

    fn get(&self, r: usize, c: usize) -> (v: i32)
        requires
            self.wf(),
            r < self.n,
            c < self.n,
        ensures
            v == self@[r as int][c as int],
    {
        proof {
            lemma_flat_index_bounds(r as int, c as int, self.n as int, self.n as int);
        }
        self.data[r * self.n + c]
    }

    fn set(&mut self, r: usize, c: usize, v: i32)
        requires
            old(self).wf(),
            r < old(self).n,
            c < old(self).n,
        ensures
            final(self).wf(),
            final(self).n == old(self).n,
            final(self)@ == old(self)@.update(r as int, old(self)@[r as int].update(c as int, v as int)),
    {
        proof {
            lemma_flat_index_bounds(r as int, c as int, self.n as int, self.n as int);
            lemma_ints_i32_update(self.data@, r * self.n + c, v);
            lemma_grid_update(
                ints_i32(self.data@),
                self.n as nat,
                self.n as nat,
                r as int,
                c as int,
                v as int,
            );
        }
        let k = r * self.n + c;
        self.data.set(k, v);
    }
}

/// Entrywise sum of two integer matrices of the same size.
fn int_add(a: &IntMatrix, b: &IntMatrix) -> (c: IntMatrix)
    requires
        a.wf(),
        b.wf(),
        a.n == b.n,
        sums_fit(a@, b@),
    ensures
        c.wf(),
        c.n == a.n,
        c@ == madd(a@, b@),
{
    let n = a.n;
    let mut data: Vec<i32> = Vec::new();
    let mut q: usize = 0;
    while q < a.data.len()
        invariant
            a.wf(),
            b.wf(),
            a.n == b.n,
            n == a.n,
            sums_fit(a@, b@),
            q <= a.data@.len(),
            data@.len() == q,
            forall|x: int|
                0 <= x < q ==> #[trigger] data@[x] as int == a.data@[x] as int + b.data@[x] as int,
        decreases a.data@.len() - q,
    {
        proof {
            lemma_flat_index_decompose(q as int, n as int, n as int);
            let i = q as int / n as int;
            let j = q as int % n as int;
            assert(a@[i][j] == a.data@[q as int] as int);
            assert(b@[i][j] == b.data@[q as int] as int);
        }
        data.push(a.data[q] + b.data[q]);
        q = q + 1;
    }
    let c = IntMatrix { n, data };
    proof {
        assert forall|i: int| 0 <= i < n implies #[trigger] c@[i] =~= madd(a@, b@)[i] by {
            assert forall|j: int| 0 <= j < n implies c@[i][j] == madd(a@, b@)[i][j] by {
                lemma_flat_index_bounds(i, j, n as int, n as int);
            }
        }
        assert(c@ =~= madd(a@, b@));
    }
    c
}

/// Entrywise difference of two integer matrices of the same size.
fn int_sub(a: &IntMatrix, b: &IntMatrix) -> (c: IntMatrix)
    requires
        a.wf(),
        b.wf(),
        a.n == b.n,
        sums_fit(a@, b@),
    ensures
        c.wf(),
        c.n == a.n,
        c@ == msub(a@, b@),
{
    let n = a.n;
    let mut data: Vec<i32> = Vec::new();
    let mut q: usize = 0;
    while q < a.data.len()
        invariant
            a.wf(),
            b.wf(),
            a.n == b.n,
            n == a.n,
            sums_fit(a@, b@),
            q <= a.data@.len(),
            data@.len() == q,
            forall|x: int|
                0 <= x < q ==> #[trigger] data@[x] as int == a.data@[x] as int - b.data@[x] as int,
        decreases a.data@.len() - q,
    {
        proof {
            lemma_flat_index_decompose(q as int, n as int, n as int);
            let i = q as int / n as int;
            let j = q as int % n as int;
            assert(a@[i][j] == a.data@[q as int] as int);
            assert(b@[i][j] == b.data@[q as int] as int);
        }
        data.push(a.data[q] - b.data[q]);
        q = q + 1;
    }
    let c = IntMatrix { n, data };
    proof {
        assert forall|i: int| 0 <= i < n implies #[trigger] c@[i] =~= msub(a@, b@)[i] by {
            assert forall|j: int| 0 <= j < n implies c@[i][j] == msub(a@, b@)[i][j] by {
                lemma_flat_index_bounds(i, j, n as int, n as int);
            }
        }
        assert(c@ =~= msub(a@, b@));
    }
    c
}

/// Exact integer product by the triple loop.
fn int_naive_mul(a: &IntMatrix, b: &IntMatrix) -> (c: IntMatrix)
    requires
        a.wf(),
        b.wf(),
        a.n == b.n,
        products_fit(a@, b@, a.n as nat),
    ensures
        c.wf(),
        c.n == a.n,
        c@ == mmul(a@, b@),
{
    let n = a.n;
    let mut c = IntMatrix::zeros(n);
    let mut i: usize = 0;
    while i < n
        invariant
            a.wf(),
            b.wf(),
            a.n == b.n,
            n == a.n,
            products_fit(a@, b@, n as nat),
            i <= n,
            c.wf(),
            c.n == n,
            forall|x: int, y: int|
                0 <= x < i && 0 <= y < n ==> #[trigger] c@[x][y] == dot(a@, b@, x, y, n as nat),
        decreases n - i,
    {
        let mut j: usize = 0;
        while j < n
            invariant
                a.wf(),
                b.wf(),
                a.n == b.n,
                n == a.n,
                products_fit(a@, b@, n as nat),
                i < n,
                j <= n,
                c.wf(),
                c.n == n,
                forall|x: int, y: int|
                    0 <= x < n && 0 <= y < n && (x < i || (x == i && y < j))
                        ==> #[trigger] c@[x][y] == dot(a@, b@, x, y, n as nat),
            decreases n - j,
        {
            let mut acc: i32 = 0;
            let mut p: usize = 0;
            while p < n
                invariant
                    a.wf(),
                    b.wf(),
                    a.n == b.n,
                    n == a.n,
                    products_fit(a@, b@, n as nat),
                    i < n,
                    j < n,
                    p <= n,
                    acc == dot(a@, b@, i as int, j as int, p as nat),
                decreases n - p,
            {
                let x = a.get(i, p);
                let y = b.get(p, j);
                proof {
                    assert(i32::MIN <= a@[i as int][p as int] * b@[p as int][j as int] <= i32::MAX);
                    assert(i32::MIN <= dot(a@, b@, i as int, j as int, (p + 1) as nat) <= i32::MAX);
                }
                acc = acc + x * y;
                p = p + 1;
            }
            c.set(i, j, acc);
            j = j + 1;
        }
        i = i + 1;
    }
    proof {
        assert(c@ =~~= mmul(a@, b@));
    }
    c
}

/// The four `half × half` quadrants of `m`, in the order top-left, top-right,
/// bottom-left, bottom-right.
fn int_split(m: &IntMatrix) -> (qs: [IntMatrix; 4])
    requires
        m.wf(),
    ensures
        forall|q: int| 0 <= q < 4 ==> (#[trigger] qs[q]).wf() && qs[q].n == m.n / 2,
        qs[0]@ == block(m@, (m.n / 2) as nat, 0, 0),
        qs[1]@ == block(m@, (m.n / 2) as nat, 0, (m.n / 2) as int),
        qs[2]@ == block(m@, (m.n / 2) as nat, (m.n / 2) as int, 0),
        qs[3]@ == block(m@, (m.n / 2) as nat, (m.n / 2) as int, (m.n / 2) as int),
{
    let half = m.n / 2;
    proof {
        assert(half * half <= m.n * m.n) by (nonlinear_arith)
            requires
                half <= m.n,
        ;
    }
    let mut q0 = IntMatrix::zeros(half);
    let mut q1 = IntMatrix::zeros(half);
    let mut q2 = IntMatrix::zeros(half);
    let mut q3 = IntMatrix::zeros(half);
    let ghost h = half as nat;
    let ghost hi = half as int;
    let mut i: usize = 0;
    while i < half
        invariant
            m.wf(),
            half == m.n / 2,
            h == half,
            hi == half,
            i <= half,
            q0.wf() && q1.wf() && q2.wf() && q3.wf(),
            q0.n == half && q1.n == half && q2.n == half && q3.n == half,
            forall|x: int, y: int|
                0 <= x < i && 0 <= y < half ==> #[trigger] q0@[x][y] == m@[x][y],
            forall|x: int, y: int|
                0 <= x < i && 0 <= y < half ==> #[trigger] q1@[x][y] == m@[x][y + hi],
            forall|x: int, y: int|
                0 <= x < i && 0 <= y < half ==> #[trigger] q2@[x][y] == m@[x + hi][y],
            forall|x: int, y: int|
                0 <= x < i && 0 <= y < half ==> #[trigger] q3@[x][y] == m@[x + hi][y + hi],
        decreases half - i,
    {
        let mut j: usize = 0;
        while j < half
            invariant
                m.wf(),
                half == m.n / 2,
                h == half,
                hi == half,
                i < half,
                j <= half,
                q0.wf() && q1.wf() && q2.wf() && q3.wf(),
                q0.n == half && q1.n == half && q2.n == half && q3.n == half,
                forall|x: int, y: int|
                    0 <= x < half && 0 <= y < half && (x < i || (x == i && y < j))
                        ==> #[trigger] q0@[x][y] == m@[x][y],
                forall|x: int, y: int|
                    0 <= x < half && 0 <= y < half && (x < i || (x == i && y < j))
                        ==> #[trigger] q1@[x][y] == m@[x][y + hi],
                forall|x: int, y: int|
                    0 <= x < half && 0 <= y < half && (x < i || (x == i && y < j))
                        ==> #[trigger] q2@[x][y] == m@[x + hi][y],
                forall|x: int, y: int|
                    0 <= x < half && 0 <= y < half && (x < i || (x == i && y < j))
                        ==> #[trigger] q3@[x][y] == m@[x + hi][y + hi],
            decreases half - j,
        {
            q0.set(i, j, m.get(i, j));
            q1.set(i, j, m.get(i, j + half));
            q2.set(i, j, m.get(i + half, j));
            q3.set(i, j, m.get(i + half, j + half));
            j = j + 1;
        }
        i = i + 1;
    }
    proof {
        assert(q0@ =~~= block(m@, h, 0, 0));
        assert(q1@ =~~= block(m@, h, 0, hi));
        assert(q2@ =~~= block(m@, h, hi, 0));
        assert(q3@ =~~= block(m@, h, hi, hi));
    }
    [q0, q1, q2, q3]
}

/// The matrix made of four equal-sized quadrants.
fn int_join(c11: &IntMatrix, c12: &IntMatrix, c21: &IntMatrix, c22: &IntMatrix) -> (m: IntMatrix)
    requires
        c11.wf() && c12.wf() && c21.wf() && c22.wf(),
        c12.n == c11.n && c21.n == c11.n && c22.n == c11.n,
        (2 * c11.n) * (2 * c11.n) <= usize::MAX,
    ensures
        m.wf(),
        m.n == 2 * c11.n,
        m@ == join4(c11@, c12@, c21@, c22@, c11.n as nat),
{
    let half = c11.n;
    proof {
        assert(2 * half <= usize::MAX) by (nonlinear_arith)
            requires
                (2 * half) * (2 * half) <= usize::MAX,
        ;
    }
    let n = half * 2;
    let mut m = IntMatrix::zeros(n);
    let ghost target = join4(c11@, c12@, c21@, c22@, half as nat);
    let mut i: usize = 0;
    while i < half
        invariant
            c11.wf() && c12.wf() && c21.wf() && c22.wf(),
            c12.n == half && c21.n == half && c22.n == half && c11.n == half,
            n == 2 * half,
            target == join4(c11@, c12@, c21@, c22@, half as nat),
            i <= half,
            m.wf(),
            m.n == n,
            forall|x: int, y: int|
                0 <= x < n && 0 <= y < n && (x < i || (half <= x < half + i))
                    ==> #[trigger] m@[x][y] == target[x][y],
        decreases half - i,
    {
        let mut j: usize = 0;
        while j < half
            invariant
                c11.wf() && c12.wf() && c21.wf() && c22.wf(),
                c12.n == half && c21.n == half && c22.n == half && c11.n == half,
                n == 2 * half,
                target == join4(c11@, c12@, c21@, c22@, half as nat),
                i < half,
                j <= half,
                m.wf(),
                m.n == n,
                forall|x: int, y: int|
                    0 <= x < n && 0 <= y < n && (x < i || (half <= x < half + i) || ((x == i
                        || x == half + i) && (y < j || (half <= y < half + j))))
                        ==> #[trigger] m@[x][y] == target[x][y],
            decreases half - j,
        {
            m.set(i, j, c11.get(i, j));
            m.set(i, j + half, c12.get(i, j));
            m.set(i + half, j, c21.get(i, j));
            m.set(i + half, j + half, c22.get(i, j));
            j = j + 1;
        }
        i = i + 1;
    }
    proof {
        assert(m@ =~~= target);
    }
    m
}

/// Strassen's recursion on exact integer matrices: seven half-size products
/// per level, the triple loop at or below `threshold`.
///
/// With entries of `a` bounded by `ea` and of `b` by `eb`, every value the
/// recursion computes is at most `4 * (n * ea) * (n * eb)` in size: `n * ea`
/// and `n * eb` stay the same from one level to the next, and the largest
/// sums arise at the levels of size two.
fn int_strassen(
    a: &IntMatrix,
    b: &IntMatrix,
    threshold: usize,
    Ghost(ea): Ghost<int>,
    Ghost(eb): Ghost<int>,
) -> (c: IntMatrix)
    requires
        a.wf(),
        b.wf(),
        a.n == b.n,
        strassen_size_ok(a.n as nat, threshold as nat),
        bounded(a@, ea),
        bounded(b@, eb),
        1 <= ea,
        1 <= eb,
        4 * (a.n * ea) * (a.n * eb) <= i32::MAX,
    ensures
        c.wf(),
        c.n == a.n,
        c@ == mmul(a@, b@),
    decreases a.n,
{
    let n = a.n;
    if n <= threshold {
        proof {
            assert(n * (ea * eb) <= i32::MAX) by (nonlinear_arith)
                requires
                    1 <= ea,
                    1 <= eb,
                    0 <= n,
                    4 * (n * ea) * (n * eb) <= i32::MAX,
            ;
            a.lemma_square();
            b.lemma_square();
            lemma_products_fit(a@, b@, n as nat, ea, eb);
        }
        return int_naive_mul(a, b);
    }
    let half = n / 2;
    let ghost h = half as nat;
    let ghost ea2 = 2 * ea;
    let ghost eb2 = 2 * eb;
    proof {
        assert(n >= 2);
        assert(half * 2 == n);
        assert(is_pow2(h));
        a.lemma_square();
        b.lemma_square();
        lemma_bounded_blocks(a@, h, ea);
        lemma_bounded_blocks(b@, h, eb);
        assert(4 * (half * ea2) * (half * eb2) == 4 * (n * ea) * (n * eb)) by (nonlinear_arith)
            requires
                ea2 == 2 * ea,
                eb2 == 2 * eb,
                half * 2 == n,
        ;
        assert(2 * ea <= i32::MAX && 2 * eb <= i32::MAX) by (nonlinear_arith)
            requires
                4 * (n * ea) * (n * eb) <= i32::MAX,
                n >= 2,
                ea >= 1,
                eb >= 1,
        ;
    }
    let aq = int_split(a);
    let bq = int_split(b);
    let ghost a11 = aq[0]@;
    let ghost a12 = aq[1]@;
    let ghost a21 = aq[2]@;
    let ghost a22 = aq[3]@;
    let ghost b11 = bq[0]@;
    let ghost b12 = bq[1]@;
    let ghost b21 = bq[2]@;
    let ghost b22 = bq[3]@;
    proof {
        assert(bounded(a11, ea) && bounded(a12, ea) && bounded(a21, ea) && bounded(a22, ea));
        assert(bounded(b11, eb) && bounded(b12, eb) && bounded(b21, eb) && bounded(b22, eb));
        assert(is_square(a11, h) && is_square(a12, h) && is_square(a21, h) && is_square(a22, h));
        assert(is_square(b11, h) && is_square(b12, h) && is_square(b21, h) && is_square(b22, h));
        lemma_bounded_sum(a11, a22, h, ea, ea);
        lemma_bounded_sum(a21, a22, h, ea, ea);
        lemma_bounded_sum(a11, a12, h, ea, ea);
        lemma_bounded_sum(a21, a11, h, ea, ea);
        lemma_bounded_sum(a12, a22, h, ea, ea);
        lemma_bounded_sum(b11, b22, h, eb, eb);
        lemma_bounded_sum(b12, b22, h, eb, eb);
        lemma_bounded_sum(b21, b11, h, eb, eb);
        lemma_bounded_sum(b11, b12, h, eb, eb);
        lemma_bounded_sum(b21, b22, h, eb, eb);
    }

    let s1 = int_add(&aq[0], &aq[3]);
    let s2 = int_add(&bq[0], &bq[3]);
    let m1 = int_strassen(&s1, &s2, threshold, Ghost(ea2), Ghost(eb2));
    let s3 = int_add(&aq[2], &aq[3]);
    let m2 = int_strassen(&s3, &bq[0], threshold, Ghost(ea2), Ghost(eb2));
    let s4 = int_sub(&bq[1], &bq[3]);
    let m3 = int_strassen(&aq[0], &s4, threshold, Ghost(ea2), Ghost(eb2));
    let s5 = int_sub(&bq[2], &bq[0]);
    let m4 = int_strassen(&aq[3], &s5, threshold, Ghost(ea2), Ghost(eb2));
    let s6 = int_add(&aq[0], &aq[1]);
    let m5 = int_strassen(&s6, &bq[3], threshold, Ghost(ea2), Ghost(eb2));
    let s7 = int_sub(&aq[2], &aq[0]);
    let s8 = int_add(&bq[0], &bq[1]);
    let m6 = int_strassen(&s7, &s8, threshold, Ghost(ea2), Ghost(eb2));
    let s9 = int_sub(&aq[1], &aq[3]);
    let s10 = int_add(&bq[2], &bq[3]);
    let m7 = int_strassen(&s9, &s10, threshold, Ghost(ea2), Ghost(eb2));

    // Each of the seven products is bounded by 2q, so every partial sum of
    // the recombination by 8q, which is at most 4 (n ea)(n eb) since n >= 2.
    let ghost q = n * (ea * eb);
    proof {
        let em = h * (ea2 * eb2);
        assert(em == 2 * q) by (nonlinear_arith)
            requires
                em == h * (ea2 * eb2),
                ea2 == 2 * ea,
                eb2 == 2 * eb,
                q == n * (ea * eb),
                2 * h == n,
        ;
        assert(8 * q <= i32::MAX) by (nonlinear_arith)
            requires
                q == n * (ea * eb),
                4 * (n * ea) * (n * eb) <= i32::MAX,
                n >= 2,
                ea >= 1,
                eb >= 1,
        ;
        lemma_bounded_product(s1@, s2@, h, ea2, eb2);
        lemma_bounded_product(s3@, b11, h, ea2, eb2);
        lemma_bounded_product(a11, s4@, h, ea2, eb2);
        lemma_bounded_product(a22, s5@, h, ea2, eb2);
        lemma_bounded_product(s6@, b22, h, ea2, eb2);
        lemma_bounded_product(s7@, s8@, h, ea2, eb2);
        lemma_bounded_product(s9@, s10@, h, ea2, eb2);
        lemma_bounded_sum(m1@, m4@, h, 2 * q, 2 * q);
        lemma_bounded_sum(m3@, m5@, h, 2 * q, 2 * q);
        lemma_bounded_sum(m2@, m4@, h, 2 * q, 2 * q);
        lemma_bounded_sum(m1@, m3@, h, 2 * q, 2 * q);
        lemma_bounded_sum(madd(m1@, m4@), m5@, h, 4 * q, 2 * q);
        lemma_bounded_sum(madd(m1@, m3@), m2@, h, 4 * q, 2 * q);
        lemma_bounded_sum(msub(madd(m1@, m4@), m5@), m7@, h, 6 * q, 2 * q);
        lemma_bounded_sum(msub(madd(m1@, m3@), m2@), m6@, h, 6 * q, 2 * q);
    }
    let t1 = int_add(&m1, &m4);
    let t2 = int_sub(&t1, &m5);
    let c11 = int_add(&t2, &m7);
    let c12 = int_add(&m3, &m5);
    let c21 = int_add(&m2, &m4);
    let t3 = int_add(&m1, &m3);
    let t4 = int_sub(&t3, &m2);
    let c22 = int_add(&t4, &m6);

    let c = int_join(&c11, &c12, &c21, &c22);
    proof {
        assert(c@ == strassen_step(a@, b@, h));
        lemma_strassen_step(a@, b@, h);
    }
    c
}

/// Strassen's algorithm for ternary matrix multiplication.
///
/// Works on exact integer matrices through the recursion and rounds the final
/// result to trits, so the result is that of `naive_matmul`. Matrices of size
/// at most `threshold` are multiplied by `naive_matmul` directly; larger ones
/// must be square with a power-of-two size.
pub fn strassen_matmul(a: &TernaryMatrix, b: &TernaryMatrix, threshold: usize) -> (c: TernaryMatrix)
    requires
        can_multiply(a, b),
        a@.rows == a@.cols,
        b@.rows == b@.cols,
        strassen_size_ok(a@.rows, threshold as nat),
        a@.rows > threshold ==> 4 * a@.rows * a@.rows <= i32::MAX,
    ensures
        c.wf(),
        c@ == matmul_view(a@, b@),
{
    let n = a.rows();
    if n <= threshold {
        return naive_matmul(a, b);
    }
    let ia = IntMatrix::from_ternary(a);
    let ib = IntMatrix::from_ternary(b);
    let ic = int_strassen(&ia, &ib, threshold, Ghost(1), Ghost(1));
    let c = ic.to_ternary();
    proof {
        assert(c@ =~~= matmul_view(a@, b@));
    }
    c
}

} // verus!
