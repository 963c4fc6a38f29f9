//! Laws of the library: identities of the ternary product and of the
//! element-wise operations, and what a write leaves for a read.
use vstd::prelude::*;

use crate::algebra::dot;
use crate::elementwise::{add_view, sub_view};
use crate::matrix::{
    LCG_MULTIPLIER, MatrixView, identity_view, lcg_state, lcg_step, trit_of_state, view_from_fn,
    zero_view,
};
use crate::product::matmul_view;
use crate::trit::{is_trit, lemma_sign_cases, lemma_z3_field, sign, z3_neg};

verus! {

/// Multiplying by the identity on the right reads off one entry.
proof fn lemma_dot_identity_right(a: MatrixView, i: int, j: int, p: nat)
    requires
        a.wf(),
        0 <= i < a.rows,
        0 <= j < a.cols,
        p <= a.cols,
    ensures
        dot(a.cells, identity_view(a.cols).cells, i, j, p) == if j < p {
            a.cells[i][j]
        } else {
            0
        },
    decreases p,
{
    if p > 0 {
        lemma_dot_identity_right(a, i, j, (p - 1) as nat);
    }
}

/// Multiplying by the identity on the left reads off one entry.
proof fn lemma_dot_identity_left(a: MatrixView, i: int, j: int, p: nat)
    requires
        a.wf(),
        0 <= i < a.rows,
        0 <= j < a.cols,
        p <= a.rows,
    ensures
        dot(identity_view(a.rows).cells, a.cells, i, j, p) == if i < p {
            a.cells[i][j]
        } else {
            0
        },
    decreases p,
{
    if p > 0 {
        lemma_dot_identity_left(a, i, j, (p - 1) as nat);
    }
}

/// A × I = A: the identity is a right unit of the ternary product.
pub proof fn lemma_identity_right(a: MatrixView)
    requires
        a.wf(),
    ensures
        matmul_view(a, identity_view(a.cols)) == a,
{
    let c = matmul_view(a, identity_view(a.cols));
    assert forall|i: int| 0 <= i < a.rows implies #[trigger] c.cells[i] =~= a.cells[i] by {
        assert forall|j: int| 0 <= j < a.cols implies c.cells[i][j] == a.cells[i][j] by {
            lemma_dot_identity_right(a, i, j, a.cols);
            assert(is_trit(a.cells[i][j]));
        }
    }
    assert(c =~~= a);
}

/// I × A = A: the identity is a left unit of the ternary product.
pub proof fn lemma_identity_left(a: MatrixView)
    requires
        a.wf(),
    ensures
        matmul_view(identity_view(a.rows), a) == a,
{
    let c = matmul_view(identity_view(a.rows), a);
    assert forall|i: int| 0 <= i < a.rows implies #[trigger] c.cells[i] =~= a.cells[i] by {
        assert forall|j: int| 0 <= j < a.cols implies c.cells[i][j] == a.cells[i][j] by {
            lemma_dot_identity_left(a, i, j, a.rows);
            assert(is_trit(a.cells[i][j]));
        }
    }
    assert(c =~~= a);
}

/// A dot product with a zero row is zero.
proof fn lemma_dot_zero_left(m: nat, b: MatrixView, i: int, j: int, p: nat)
    requires
        0 <= i < m,
        p <= b.rows,
    ensures
        dot(zero_view(m, b.rows).cells, b.cells, i, j, p) == 0,
    decreases p,
{
    if p > 0 {
        lemma_dot_zero_left(m, b, i, j, (p - 1) as nat);
    }
}

/// A dot product with a zero column is zero.
proof fn lemma_dot_zero_right(a: MatrixView, n: nat, i: int, j: int, p: nat)
    requires
        0 <= j < n,
        p <= a.cols,
    ensures
        dot(a.cells, zero_view(a.cols, n).cells, i, j, p) == 0,
    decreases p,
{
    if p > 0 {
        lemma_dot_zero_right(a, n, i, j, (p - 1) as nat);
    }
}

/// 0 × B = 0: a zero left operand gives a zero product.
pub proof fn lemma_zero_left(m: nat, b: MatrixView)
    ensures
        matmul_view(zero_view(m, b.rows), b) == zero_view(m, b.cols),
{
    let c = matmul_view(zero_view(m, b.rows), b);
    assert forall|i: int| 0 <= i < m implies #[trigger] c.cells[i] =~= zero_view(m, b.cols).cells[i] by {
        assert forall|j: int| 0 <= j < b.cols implies c.cells[i][j] == 0 by {
            lemma_dot_zero_left(m, b, i, j, b.rows);
        }
    }
    assert(c =~~= zero_view(m, b.cols));
}

/// A × 0 = 0: a zero right operand gives a zero product.
pub proof fn lemma_zero_right(a: MatrixView, n: nat)
    ensures
        matmul_view(a, zero_view(a.cols, n)) == zero_view(a.rows, n),
{
    let c = matmul_view(a, zero_view(a.cols, n));
    assert forall|i: int| 0 <= i < a.rows implies #[trigger] c.cells[i] =~= zero_view(a.rows, n).cells[i] by {
        assert forall|j: int| 0 <= j < n implies c.cells[i][j] == 0 by {
            lemma_dot_zero_right(a, n, i, j, a.cols);
        }
    }
    assert(c =~~= zero_view(a.rows, n));
}

/// Element-wise addition commutes.
pub proof fn lemma_add_commutes(a: MatrixView, b: MatrixView)
    requires
        a.wf(),
        b.wf(),
        a.rows == b.rows,
        a.cols == b.cols,
    ensures
        add_view(a, b) == add_view(b, a),
{
    assert forall|i: int| 0 <= i < a.rows implies #[trigger] add_view(a, b).cells[i] =~= add_view(
        b,
        a,
    ).cells[i] by {
        assert forall|j: int| 0 <= j < a.cols implies add_view(a, b).cells[i][j] == add_view(
            b,
            a,
        ).cells[i][j] by {
            lemma_z3_field(a.cells[i][j], b.cells[i][j], 0);
        }
    }
    assert(add_view(a, b) =~~= add_view(b, a));
}

/// (A + B) - B = A: subtracting undoes adding.
pub proof fn lemma_sub_undoes_add(a: MatrixView, b: MatrixView)
    requires
        a.wf(),
        b.wf(),
        a.rows == b.rows,
        a.cols == b.cols,
    ensures
        sub_view(add_view(a, b), b) == a,
{
    let s = add_view(a, b);
    let d = sub_view(s, b);
    assert forall|i: int| 0 <= i < a.rows implies #[trigger] d.cells[i] =~= a.cells[i] by {
        assert forall|j: int| 0 <= j < a.cols implies d.cells[i][j] == a.cells[i][j] by {
            let x = a.cells[i][j];
            let y = b.cells[i][j];
            lemma_z3_field(x, y, z3_neg(y));
            lemma_z3_field(y, y, 0);
            lemma_z3_field(x, 0, 0);
            lemma_z3_field(y, z3_neg(y), 0);
        }
    }
    assert(d =~~= a);
}

/// A - A = 0: a matrix minus itself is zero.
pub proof fn lemma_sub_self(a: MatrixView)
    requires
        a.wf(),
    ensures
        sub_view(a, a) == zero_view(a.rows, a.cols),
{
    assert forall|i: int| 0 <= i < a.rows implies #[trigger] sub_view(a, a).cells[i] =~= zero_view(
        a.rows,
        a.cols,
    ).cells[i] by {
        assert forall|j: int| 0 <= j < a.cols implies sub_view(a, a).cells[i][j] == 0 by {
            lemma_z3_field(a.cells[i][j], 0, 0);
        }
    }
    assert(sub_view(a, a) =~~= zero_view(a.rows, a.cols));
}

/// After writing `v` into cell `(i, j)`, that cell reads `v` and every other
/// cell reads what it held before.
pub proof fn lemma_read_after_write(m: MatrixView, i: int, j: int, v: int, r: int, c: int)
    requires
        m.wf(),
        0 <= i < m.rows,
        0 <= j < m.cols,
        0 <= r < m.rows,
        0 <= c < m.cols,
    ensures
        m.with_cell(i, j, v).cells[r][c] == if r == i && c == j {
            v
        } else {
            m.cells[r][c]
        },
        m.with_cell(i, j, v).rows == m.rows,
        m.with_cell(i, j, v).cols == m.cols,
{
}

/// The product of two trit matrices is a well-formed trit matrix with the
/// rows of the left operand and the columns of the right one.
pub proof fn lemma_product_shape(a: MatrixView, b: MatrixView)
    ensures
        matmul_view(a, b).wf(),
        matmul_view(a, b).rows == a.rows,
        matmul_view(a, b).cols == b.cols,
{
    let c = matmul_view(a, b);
    assert forall|i: int, j: int| 0 <= i < c.rows && 0 <= j < c.cols implies is_trit(
        #[trigger] c.cells[i][j],
    ) by {
        assert(c.cells[i][j] == sign(dot(a.cells, b.cells, i, j, a.cols)));
    }
}

/// Rounding every cell of a trit matrix to its sign gives the matrix back:
/// widening a ternary matrix to integers and rounding it again is the identity.
pub proof fn lemma_sign_round_trip(t: MatrixView)
    requires
        t.wf(),
    ensures
        view_from_fn(t.rows, t.cols, |i: int, j: int| sign(t.cells[i][j])) == t,
{
    let r = view_from_fn(t.rows, t.cols, |i: int, j: int| sign(t.cells[i][j]));
    assert forall|i: int| 0 <= i < t.rows implies #[trigger] r.cells[i] =~= t.cells[i] by {
        assert forall|j: int| 0 <= j < t.cols implies r.cells[i][j] == t.cells[i][j] by {
            assert(is_trit(t.cells[i][j]));
        }
    }
    assert(r =~~= t);
}

/// Partial dot products of a row of +1 with a column of +1 count their terms.
proof fn lemma_dot_ones(n: nat, k: nat)
    requires
        k <= n,
    ensures
        dot(
            view_from_fn(1, n, |i: int, j: int| 1int).cells,
            view_from_fn(n, 1, |i: int, j: int| 1int).cells,
            0,
            0,
            k,
        ) == k,
    decreases k,
{
    if k > 0 {
        lemma_dot_ones(n, (k - 1) as nat);
        let a = view_from_fn(1, n, |i: int, j: int| 1int);
        let b = view_from_fn(n, 1, |i: int, j: int| 1int);
        assert(a.cells[0][k - 1] == 1);
        assert(b.cells[k - 1][0] == 1);
        assert(dot(a.cells, b.cells, 0, 0, k) == dot(a.cells, b.cells, 0, 0, (k - 1) as nat) + a.cells[0][k - 1] * b.cells[k - 1][0]);
    }
}

/// A row of `n` entries +1 times a column of `n` entries +1 is the 1 × 1
/// matrix [+1], for every `n >= 1`: the dot product `n` is positive however
/// large it is.
pub proof fn lemma_ones_row_times_ones_column(n: nat)
    requires
        n >= 1,
    ensures
        matmul_view(
            view_from_fn(1, n, |i: int, j: int| 1int),
            view_from_fn(n, 1, |i: int, j: int| 1int),
        ) == view_from_fn(1, 1, |i: int, j: int| 1int),
{
    let c = matmul_view(
        view_from_fn(1, n, |i: int, j: int| 1int),
        view_from_fn(n, 1, |i: int, j: int| 1int),
    );
    lemma_dot_ones(n, n);
    lemma_sign_cases(n as int);
    assert(c.cells[0][0] == 1);
    assert(c.cells[0] =~= view_from_fn(1, 1, |i: int, j: int| 1int).cells[0]);
    assert(c =~~= view_from_fn(1, 1, |i: int, j: int| 1int));
}

/// The generator behind `random` starts from the whole 64-bit seed and each
/// step maps a state `s` to `s * 6364136223846793005 + 1442695040888963407`
/// modulo 2^64.
pub proof fn lemma_lcg_arithmetic(seed: u64, n: nat)
    ensures
        lcg_state(seed, 0) == seed,
        lcg_state(seed, n + 1) as int == (lcg_state(seed, n) as int * 6364136223846793005
            + 1442695040888963407) % 0x1_0000_0000_0000_0000,
        lcg_state(seed, 1) as int == (seed as int * 6364136223846793005 + 1442695040888963407)
            % 0x1_0000_0000_0000_0000,
{
    lemma_lcg_step_arithmetic(lcg_state(seed, n));
    lemma_lcg_step_arithmetic(seed);
    assert(lcg_state(seed, (n + 1) as nat) == lcg_step(lcg_state(seed, n)));
    assert(lcg_state(seed, 1) == lcg_step(lcg_state(seed, 0)));
}

/// One generator step is the affine map modulo 2^64.
proof fn lemma_lcg_step_arithmetic(s: u64)
    ensures
        lcg_step(s) as int == (s as int * 6364136223846793005 + 1442695040888963407)
            % 0x1_0000_0000_0000_0000,
{
    let r: int = 0x1_0000_0000_0000_0000;
    let p: int = s as int * 6364136223846793005;
    let w: int = p % r;
    vstd::arithmetic::div_mod::lemma_add_mod_noop(p, 1442695040888963407, r);
    vstd::arithmetic::div_mod::lemma_small_mod(1442695040888963407nat, r as nat);
    vstd::arithmetic::div_mod::lemma_mod_bound(p, r);
    let t: int = w + 1442695040888963407;
    if t < r {
        vstd::arithmetic::div_mod::lemma_small_mod(t as nat, r as nat);
    } else {
        vstd::arithmetic::div_mod::lemma_mod_sub_multiples_vanish(t, r);
        vstd::arithmetic::div_mod::lemma_small_mod((t - r) as nat, r as nat);
    }
    assert(vstd::wrapping::u64_specs::wrapping_mul(s, LCG_MULTIPLIER) as int == w);
}

/// The trit drawn from a generator state depends on which quarter of the
/// 64-bit range the state lies in: -1 in the first and last quarters, 0 in
/// the second, +1 in the third.
pub proof fn lemma_trit_of_state_quarters(s: u64)
    ensures
        s < 0x4000_0000_0000_0000 ==> trit_of_state(s) == -1,
        0x4000_0000_0000_0000 <= s < 0x8000_0000_0000_0000 ==> trit_of_state(s) == 0,
        0x8000_0000_0000_0000 <= s < 0xc000_0000_0000_0000 ==> trit_of_state(s) == 1,
        0xc000_0000_0000_0000 <= s ==> trit_of_state(s) == -1,
{
    assert(s < 0x4000_0000_0000_0000 ==> s >> 62u64 == 0) by (bit_vector);
    assert(0x4000_0000_0000_0000 <= s < 0x8000_0000_0000_0000 ==> s >> 62u64 == 1)
        by (bit_vector);
    assert(0x8000_0000_0000_0000 <= s < 0xc000_0000_0000_0000 ==> s >> 62u64 == 2)
        by (bit_vector);
    assert(0xc000_0000_0000_0000 <= s ==> s >> 62u64 == 3) by (bit_vector);
}

} // verus!
