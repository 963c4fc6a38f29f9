//! XNOR + popcount multiplication for matrices of signs {-1, +1}: rows of the
//! left operand and columns of the right one are packed into 64-bit words,
//! and a dot product is read off the number of agreeing positions.
use vstd::prelude::*;

use crate::algebra::dot;
use crate::matrix::{MatrixView, TernaryMatrix};
use crate::product::matmul_view;
use crate::trit::is_trit;

verus! {

/// Bit `t` of `x` is set.
pub open spec fn bit(x: u64, t: u64) -> bool {
    (x >> t) & 1u64 == 1u64
}

/// The number of set bits of `x` among positions `0..m`.
pub open spec fn bits_below(x: u64, m: nat) -> nat
    decreases m,
{
    if m == 0 {
        0
    } else {
        bits_below(x, (m - 1) as nat) + if bit(x, (m - 1) as u64) {
            1nat
        } else {
            0nat
        }
    }
}

/// The matrix has no zero cell: every cell is -1 or +1.
pub open spec fn is_binary(m: MatrixView) -> bool {
    forall|i: int, j: int| 0 <= i < m.rows && 0 <= j < m.cols ==> #[trigger] m.cells[i][j] != 0
}

/// The number of positions `p < n` where row `i` of `a` and column `j` of
/// `b` hold the same value.
pub open spec fn agree(a: MatrixView, b: MatrixView, i: int, j: int, n: nat) -> nat
    decreases n,
{
    if n == 0 {
        0
    } else {
        agree(a, b, i, j, (n - 1) as nat) + if a.cells[i][n - 1] == b.cells[n - 1][j] {
            1nat
        } else {
            0nat
        }
    }
}

/// The largest inner dimension for which `2 * agree - k` fits in an `i32`.
pub open spec fn xnor_max_inner() -> int {
    i32::MAX / 2
}

/// The number of ones in the binary representation of `x`, testing each of
/// its 64 bits in turn.
fn count_ones(x: u64) -> (r: u32)
    ensures
        r == bits_below(x, 64),
{
    let mut r: u32 = 0;
    let mut t: u64 = 0;
    while t < 64
        invariant
            t <= 64,
            r == bits_below(x, t as nat),
            r <= t,
        decreases 64 - t,
    {
        if (x >> t) & 1 == 1 {
            r = r + 1;
        }
        t = t + 1;
    }
    r
}

proof fn lemma_bit_not(x: u64, t: u64)
    requires
        t < 64,
    ensures
        bit(!x, t) == !bit(x, t),
{
    assert(((!x) >> t) & 1u64 == 1u64 <==> !((x >> t) & 1u64 == 1u64)) by (bit_vector)
        requires
            t < 64,
    ;
}

/// Every position below `m` is set in exactly one of `x` and its complement,
/// so their counts of set bits add up to `m`.
pub proof fn lemma_bits_below_complement(x: u64, m: nat)
    requires
        m <= 64,
    ensures
        bits_below(x, m) + bits_below(!x, m) == m,
    decreases m,
{
    if m > 0 {
        lemma_bits_below_complement(x, (m - 1) as nat);
        lemma_bit_not(x, (m - 1) as u64);
    }
}

/// The population count of a 64-bit word: 0 for the empty word, 64 for the
/// full word, and `64 - popcount(x)` for the complement of `x`.
pub proof fn lemma_popcount_laws(x: u64)
    ensures
        bits_below(0u64, 64) == 0,
        bits_below(!0u64, 64) == 64,
        bits_below(u64::MAX, 64) == 64,
        bits_below(x, 64) <= 64,
        bits_below(!x, 64) == 64 - bits_below(x, 64),
{
    lemma_bits_below_complement(x, 64);
    lemma_bits_below_complement(0u64, 64);
    assert forall|t: u64| t < 64 implies !#[trigger] bit(0u64, t) by {
        lemma_bit_zero(t);
    }
    lemma_bits_below_clear_above(0u64, 0, 64);
    assert(!0u64 == u64::MAX) by (bit_vector);
}

/// A well-formed matrix is binary exactly when every cell is -1 or +1, at
/// any size.
pub proof fn lemma_binary_iff_signs(m: MatrixView)
    requires
        m.wf(),
    ensures
        is_binary(m) <==> forall|i: int, j: int|
            0 <= i < m.rows && 0 <= j < m.cols ==> #[trigger] m.cells[i][j] == 1 || m.cells[i][j]
                == -1,
{
    assert forall|i: int, j: int| 0 <= i < m.rows && 0 <= j < m.cols implies is_trit(
        #[trigger] m.cells[i][j],
    ) by {}
}

proof fn lemma_bit_xnor(x: u64, y: u64, t: u64)
    requires
        t < 64,
    ensures
        bit(!(x ^ y), t) == (bit(x, t) == bit(y, t)),
{
    assert(((!(x ^ y)) >> t) & 1u64 == 1u64 <==> (((x >> t) & 1u64 == 1u64) == ((y >> t) & 1u64
        == 1u64))) by (bit_vector)
        requires
            t < 64,
    ;
}

proof fn lemma_bit_low_mask(x: u64, m: u64, t: u64)
    requires
        m < 64,
        t < 64,
    ensures
        bit(x & (((1u64 << m) - 1u64) as u64), t) == (t < m && bit(x, t)),
{
    assert(((x & (((1u64 << m) - 1u64) as u64)) >> t) & 1u64 == 1u64 <==> (t < m && (x >> t) & 1u64 == 1u64))
        by (bit_vector)
        requires
            m < 64,
            t < 64,
    ;
}

proof fn lemma_bit_full_mask(x: u64, t: u64)
    requires
        t < 64,
    ensures
        bit(x & !0u64, t) == bit(x, t),
{
    assert(((x & !0u64) >> t) & 1u64 == 1u64 <==> (x >> t) & 1u64 == 1u64) by (bit_vector);
}

proof fn lemma_bit_set(w: u64, s: u64, t: u64)
    requires
        s < 64,
        t < 64,
    ensures
        bit(w | (1u64 << s), t) == (t == s || bit(w, t)),
{
    assert(((w | (1u64 << s)) >> t) & 1u64 == 1u64 <==> (t == s || (w >> t) & 1u64 == 1u64))
        by (bit_vector)
        requires
            s < 64,
            t < 64,
    ;
}

proof fn lemma_bit_zero(t: u64)
    ensures
        !bit(0u64, t),
{
    assert((0u64 >> t) & 1u64 != 1u64) by (bit_vector);
}

/// Counting set bits over positions whose bits agree gives the same count.
proof fn lemma_bits_below_same(x: u64, y: u64, m: nat)
    requires
        m <= 64,
        forall|t: u64| t < m ==> #[trigger] bit(x, t) == bit(y, t),
    ensures
        bits_below(x, m) == bits_below(y, m),
    decreases m,
{
    if m > 0 {
        lemma_bits_below_same(x, y, (m - 1) as nat);
        assert(bit(x, (m - 1) as u64) == bit(y, (m - 1) as u64));
    }
}

/// Bits that are clear from position `m` on add nothing to the count.
proof fn lemma_bits_below_clear_above(x: u64, m: nat, n: nat)
    requires
        m <= n <= 64,
        forall|t: u64| m <= t < 64 ==> !#[trigger] bit(x, t),
    ensures
        bits_below(x, n) == bits_below(x, m),
    decreases n,
{
    if n > m {
        lemma_bits_below_clear_above(x, m, (n - 1) as nat);
        assert(!bit(x, (n - 1) as u64));
    }
}

/// On signs, a dot product is the number of agreements minus the number of
/// disagreements.
pub proof fn lemma_dot_binary(a: MatrixView, b: MatrixView, i: int, j: int, n: nat)
    requires
        a.wf(),
        b.wf(),
        is_binary(a),
        is_binary(b),
        a.cols == b.rows,
        0 <= i < a.rows,
        0 <= j < b.cols,
        n <= a.cols,
    ensures
        dot(a.cells, b.cells, i, j, n) == 2 * agree(a, b, i, j, n) - n,
        agree(a, b, i, j, n) <= n,
    decreases n,
{
    if n > 0 {
        lemma_dot_binary(a, b, i, j, (n - 1) as nat);
        let x = a.cells[i][n - 1];
        let y = b.cells[n - 1][j];
        assert(is_trit(x) && x != 0);
        assert(is_trit(y) && y != 0);
        assert(x * y == if x == y {
            1int
        } else {
            -1int
        }) by (nonlinear_arith)
            requires
                x == 1 || x == -1,
                y == 1 || y == -1,
        ;
    }
}

/// The set bits of the XNOR of two packed words, over the `m` positions from
/// `lo`, count the agreements of a row and a column over those positions.
proof fn lemma_word_agree(
    a: MatrixView,
    b: MatrixView,
    i: int,
    j: int,
    aw: u64,
    bw: u64,
    lo: nat,
    m: nat,
)
    requires
        a.wf(),
        b.wf(),
        is_binary(a),
        is_binary(b),
        a.cols == b.rows,
        0 <= i < a.rows,
        0 <= j < b.cols,
        m <= 64,
        lo + m <= a.cols,
        forall|t: u64| t < m ==> #[trigger] bit(aw, t) == (a.cells[i][lo + t] == 1),
        forall|t: u64| t < m ==> #[trigger] bit(bw, t) == (b.cells[lo + t][j] == 1),
    ensures
        bits_below(!(aw ^ bw), m) == agree(a, b, i, j, lo + m) - agree(a, b, i, j, lo),
    decreases m,
{
    if m > 0 {
        lemma_word_agree(a, b, i, j, aw, bw, lo, (m - 1) as nat);
        let t = (m - 1) as u64;
        lemma_bit_xnor(aw, bw, t);
        assert(bit(aw, t) == (a.cells[i][lo + t] == 1));
        assert(bit(bw, t) == (b.cells[lo + t][j] == 1));
        let x = a.cells[i][lo + t];
        let y = b.cells[lo + t][j];
        assert(is_trit(x) && x != 0);
        assert(is_trit(y) && y != 0);
        assert((lo + m - 1) as nat == lo + t);
        assert((lo + m) as nat == (lo + (m - 1) + 1) as nat);
    }
}

/// Packs signs into words, one bit per position: bit `t` of word `w` is set
/// when position `64 * w + t` exists and holds +1.
fn pack_signs(vals: &Vec<i8>, words: usize) -> (packed: Vec<u64>)
    requires
        vals@.len() <= 64 * words,
    ensures
        packed@.len() == words,
        forall|w: int, t: u64|
            0 <= w < words && t < 64 ==> #[trigger] bit(packed@[w], t) == (64 * w + t
                < vals@.len() && vals@[64 * w + t] == 1),
{
    let mut packed: Vec<u64> = vec![0u64; words];
    proof {
        assert forall|w: int, t: u64| 0 <= w < words && t < 64 implies !#[trigger] bit(
            packed@[w],
            t,
        ) by {
            lemma_bit_zero(t);
        }
    }
    let mut i: usize = 0;
    while i < vals.len()
        invariant
            vals@.len() <= 64 * words,
            i <= vals@.len(),
            packed@.len() == words,
            forall|w: int, t: u64|
                0 <= w < words && t < 64 ==> #[trigger] bit(packed@[w], t) == (64 * w + t < i
                    && vals@[64 * w + t] == 1),
        decreases vals@.len() - i,
    {
        if vals[i] == 1 {
            let w = i / 64;
            let s = (i % 64) as u64;
            let ghost old_packed = packed@;
            let word = packed[w] | (1u64 << s);
            packed.set(w, word);
            proof {
                assert forall|w2: int, t: u64| 0 <= w2 < words && t < 64 implies #[trigger] bit(
                    packed@[w2],
                    t,
                ) == (64 * w2 + t < i + 1 && vals@[64 * w2 + t] == 1) by {
                    if w2 == w {
                        lemma_bit_set(old_packed[w2], s, t);
                    }
                }
            }
        }
        i = i + 1;
    }
    packed
}

/// XNOR + popcount multiplication for matrices of signs.
///
/// When neither matrix holds a zero, the result is that of `naive_matmul`;
/// otherwise the answer is `None`.
pub fn xnor_matmul(a: &TernaryMatrix, b: &TernaryMatrix) -> (r: Option<TernaryMatrix>)
    requires
        a.wf(),
        b.wf(),
        is_binary(a@) && is_binary(b@) ==> a@.cols == b@.rows && a@.cols <= xnor_max_inner()
            && a@.rows * b@.cols <= usize::MAX,
    ensures
        r is None <==> !(is_binary(a@) && is_binary(b@)),
        r matches Some(c) ==> c.wf() && c@ == matmul_view(a@, b@),
{
    // Only signs can be packed into bits.
    if a.has_zero() || b.has_zero() {
        return None;
    }
    let m = a.rows();
    let k = a.cols();
    let n = b.cols();
    let ghost av = a@;
    let ghost bv = b@;

    let bits_needed = k;
    let u64_count = (bits_needed + 63) / 64;

    // Pack rows of A: -1 becomes a clear bit, +1 a set bit.
    proof {
        vstd::arithmetic::div_mod::lemma_fundamental_div_mod((k + 63) as int, 64);
        vstd::arithmetic::div_mod::lemma_fundamental_div_mod(k as int, 64);
        assert(k % 64 == 0 ==> 64 * u64_count == k);
        assert(k % 64 != 0 ==> 64 * (u64_count - 1) + k % 64 == k);
    }
    let mut a_packed: Vec<Vec<u64>> = Vec::new();
    let mut i: usize = 0;
    while i < m
        invariant
            a.wf(),
            av == a@,
            m == av.rows,
            k == av.cols,
            u64_count == (k + 63) / 64,
            k <= xnor_max_inner(),
            i <= m,
            a_packed@.len() == i,
            forall|r: int| 0 <= r < i ==> (#[trigger] a_packed@[r])@.len() == u64_count,
            forall|r: int, w: int, t: u64|
                0 <= r < i && 0 <= w < u64_count && t < 64 ==> #[trigger] bit(
                    a_packed@[r]@[w],
                    t,
                ) == (64 * w + t < k && av.cells[r][64 * w + t] == 1),
        decreases m - i,
    {
        let mut row: Vec<i8> = Vec::new();
        let mut p: usize = 0;
        while p < k
            invariant
                a.wf(),
                av == a@,
                m == av.rows,
                k == av.cols,
                i < m,
                p <= k,
                row@.len() == p,
                forall|q: int| 0 <= q < p ==> #[trigger] row@[q] as int == av.cells[i as int][q],
            decreases k - p,
        {
            row.push(a.get(i, p));
            p = p + 1;
        }
        let packed = pack_signs(&row, u64_count);
        a_packed.push(packed);
        i = i + 1;
    }

    // Pack columns of B the same way.
    let mut b_packed: Vec<Vec<u64>> = Vec::new();
    let mut j: usize = 0;
    while j < n
        invariant
            b.wf(),
            bv == b@,
            n == bv.cols,
            k == bv.rows,
            u64_count == (k + 63) / 64,
            k <= xnor_max_inner(),
            j <= n,
            b_packed@.len() == j,
            forall|r: int| 0 <= r < j ==> (#[trigger] b_packed@[r])@.len() == u64_count,
            forall|r: int, w: int, t: u64|
                0 <= r < j && 0 <= w < u64_count && t < 64 ==> #[trigger] bit(
                    b_packed@[r]@[w],
                    t,
                ) == (64 * w + t < k && bv.cells[64 * w + t][r] == 1),
        decreases n - j,
    {
        let mut col: Vec<i8> = Vec::new();
        let mut p: usize = 0;
        while p < k
            invariant
                b.wf(),
                bv == b@,
                n == bv.cols,
                k == bv.rows,
                j < n,
                p <= k,
                col@.len() == p,
                forall|q: int| 0 <= q < p ==> #[trigger] col@[q] as int == bv.cells[q][j as int],
            decreases k - p,
        {
            col.push(b.get(p, j));
            p = p + 1;
        }
        let packed = pack_signs(&col, u64_count);
        b_packed.push(packed);
        j = j + 1;
    }

    let mut c = TernaryMatrix::zeros(m, n);
    let mut i: usize = 0;
    while i < m
        invariant
            av == a@,
            bv == b@,
            av.wf(),
            bv.wf(),
            is_binary(av),
            is_binary(bv),
            m == av.rows,
            k == av.cols,
            k == bv.rows,
            n == bv.cols,
            k <= xnor_max_inner(),
            u64_count == (k + 63) / 64,
            k % 64 == 0 ==> 64 * u64_count == k,
            k % 64 != 0 ==> 64 * (u64_count - 1) + k % 64 == k,
            bits_needed == k,
            a_packed@.len() == m,
            b_packed@.len() == n,
            forall|r: int| 0 <= r < m ==> (#[trigger] a_packed@[r])@.len() == u64_count,
            forall|r: int| 0 <= r < n ==> (#[trigger] b_packed@[r])@.len() == u64_count,
            forall|r: int, w: int, t: u64|
                0 <= r < m && 0 <= w < u64_count && t < 64 ==> #[trigger] bit(
                    a_packed@[r]@[w],
                    t,
                ) == (64 * w + t < k && av.cells[r][64 * w + t] == 1),
            forall|r: int, w: int, t: u64|
                0 <= r < n && 0 <= w < u64_count && t < 64 ==> #[trigger] bit(
                    b_packed@[r]@[w],
                    t,
                ) == (64 * w + t < k && bv.cells[64 * w + t][r] == 1),
            i <= m,
            c.wf(),
            c@.rows == m,
            c@.cols == n,
            forall|r: int, q: int|
                0 <= r < i && 0 <= q < n ==> #[trigger] c@.cells[r][q] == matmul_view(
                    av,
                    bv,
                ).cells[r][q],
        decreases m - i,
    {
        let mut j: usize = 0;
        while j < n
            invariant
                av == a@,
                bv == b@,
                av.wf(),
                bv.wf(),
                is_binary(av),
                is_binary(bv),
                m == av.rows,
                k == av.cols,
                k == bv.rows,
                n == bv.cols,
                k <= xnor_max_inner(),
                u64_count == (k + 63) / 64,
                k % 64 == 0 ==> 64 * u64_count == k,
                k % 64 != 0 ==> 64 * (u64_count - 1) + k % 64 == k,
                bits_needed == k,
                a_packed@.len() == m,
                b_packed@.len() == n,
                forall|r: int| 0 <= r < m ==> (#[trigger] a_packed@[r])@.len() == u64_count,
                forall|r: int| 0 <= r < n ==> (#[trigger] b_packed@[r])@.len() == u64_count,
                forall|r: int, w: int, t: u64|
                    0 <= r < m && 0 <= w < u64_count && t < 64 ==> #[trigger] bit(
                        a_packed@[r]@[w],
                        t,
                    ) == (64 * w + t < k && av.cells[r][64 * w + t] == 1),
                forall|r: int, w: int, t: u64|
                    0 <= r < n && 0 <= w < u64_count && t < 64 ==> #[trigger] bit(
                        b_packed@[r]@[w],
                        t,
                    ) == (64 * w + t < k && bv.cells[64 * w + t][r] == 1),
                i < m,
                j <= n,
                c.wf(),
                c@.rows == m,
                c@.cols == n,
                forall|r: int, q: int|
                    0 <= r < m && 0 <= q < n && (r < i || (r == i && q < j))
                        ==> #[trigger] c@.cells[r][q] == matmul_view(av, bv).cells[r][q],
            decreases n - j,
        {
            let mut total_agree: i32 = 0;
            let mut b_idx: usize = 0;
            while b_idx < u64_count
                invariant
                    av.wf(),
                    bv.wf(),
                    is_binary(av),
                    is_binary(bv),
                    m == av.rows,
                    k == av.cols,
                    k == bv.rows,
                    n == bv.cols,
                    k <= xnor_max_inner(),
                    u64_count == (k + 63) / 64,
                    k % 64 == 0 ==> 64 * u64_count == k,
                    k % 64 != 0 ==> 64 * (u64_count - 1) + k % 64 == k,
                    bits_needed == k,
                    i < m,
                    j < n,
                    a_packed@.len() == m,
                    b_packed@.len() == n,
                    a_packed@[i as int]@.len() == u64_count,
                    b_packed@[j as int]@.len() == u64_count,
                    forall|w: int, t: u64|
                        0 <= w < u64_count && t < 64 ==> #[trigger] bit(
                            a_packed@[i as int]@[w],
                            t,
                        ) == (64 * w + t < k && av.cells[i as int][64 * w + t] == 1),
                    forall|w: int, t: u64|
                        0 <= w < u64_count && t < 64 ==> #[trigger] bit(
                            b_packed@[j as int]@[w],
                            t,
                        ) == (64 * w + t < k && bv.cells[64 * w + t][j as int] == 1),
                    b_idx <= u64_count,
                    total_agree == agree(
                        av,
                        bv,
                        i as int,
                        j as int,
                        if 64 * b_idx <= k {
                            (64 * b_idx) as nat
                        } else {
                            k as nat
                        },
                    ),
                decreases u64_count - b_idx,
            {
                let aw = a_packed[i][b_idx];
                let bw = b_packed[j][b_idx];
                let xnor = !(aw ^ bw);
                let bits_in_word: usize = if b_idx == u64_count - 1 && bits_needed % 64 != 0 {
                    bits_needed % 64
                } else {
                    64
                };
                let mask = if bits_in_word == 64 {
                    !0u64
                } else {
                    let s = bits_in_word as u64;
                    assert((1u64 << s) >= 1u64) by (bit_vector)
                        requires
                            s < 64,
                    ;
                    (1u64 << s) - 1
                };
                let ghost lo = (64 * b_idx) as nat;
                let ghost bw_count = bits_in_word as nat;
                proof {
                    assert(lo + bw_count <= k);
                    assert forall|t: u64| t < bw_count implies #[trigger] bit(aw, t) == (av.cells[i as int][lo + t] == 1) by {
                        assert(bit(a_packed@[i as int]@[b_idx as int], t) == (64 * b_idx + t < k
                            && av.cells[i as int][64 * b_idx + t] == 1));
                    }
                    assert forall|t: u64| t < bw_count implies #[trigger] bit(bw, t) == (bv.cells[lo + t][j as int] == 1) by {
                        assert(bit(b_packed@[j as int]@[b_idx as int], t) == (64 * b_idx + t < k
                            && bv.cells[64 * b_idx + t][j as int] == 1));
                    }
                    lemma_word_agree(av, bv, i as int, j as int, aw, bw, lo, bw_count);
                    assert forall|t: u64| t < 64 implies #[trigger] bit(xnor & mask, t) == (t < bw_count && bit(xnor, t)) by {
                        if bits_in_word == 64 {
                            lemma_bit_full_mask(xnor, t);
                        } else {
                            lemma_bit_low_mask(xnor, bits_in_word as u64, t);
                        }
                    }
                    assert forall|t: u64| t < bw_count implies #[trigger] bit(xnor & mask, t) == bit(xnor, t) by {
                        assert(bit(xnor & mask, t) == (t < bw_count && bit(xnor, t)));
                    }
                    assert forall|t: u64| bw_count <= t < 64 implies !#[trigger] bit(xnor & mask, t) by {
                        assert(bit(xnor & mask, t) == (t < bw_count && bit(xnor, t)));
                    }
                    lemma_bits_below_clear_above(xnor & mask, bw_count, 64);
                    lemma_bits_below_same(xnor & mask, xnor, bw_count);
                    lemma_dot_binary(av, bv, i as int, j as int, lo + bw_count);
                }
                let ones = count_ones(xnor & mask);
                total_agree = total_agree + ones as i32;
                b_idx = b_idx + 1;
                proof {
                    if 64 * b_idx <= k {
                        assert(lo + bw_count == 64 * b_idx);
                    } else {
                        assert(lo + bw_count == k);
                    }
                }
            }
            // agree counts +1 products, the other k - agree are -1 products.
            proof {
                lemma_dot_binary(av, bv, i as int, j as int, k as nat);
            }
            let sum = 2 * total_agree - k as i32;
            c.set(i, j, TernaryMatrix::round_to_trit(sum));
            j = j + 1;
        }
        i = i + 1;
    }
    proof {
        assert(c@ =~~= matmul_view(a@, b@));
    }
    Some(c)
}

} // verus!
