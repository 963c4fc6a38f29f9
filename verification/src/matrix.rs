//! The ternary matrix type: row-major storage of trits, its mathematical
//! view, constructors and element access.
use vstd::prelude::*;

use crate::grid::{
    grid, ints_i8, lemma_flat_index_bounds, lemma_flat_index_decompose, lemma_grid_update,
    lemma_ints_i8_update,
};
use crate::trit::{is_trit, sign};

verus! {

/// Mathematical model of a ternary matrix: its shape and its rows of cells.
#[verifier::ext_equal]
pub struct MatrixView {
    pub rows: nat,
    pub cols: nat,
    pub cells: Seq<Seq<int>>,
}

impl MatrixView {
    /// The cells form a `rows × cols` grid of trits.
    pub open spec fn wf(self) -> bool {
        &&& self.cells.len() == self.rows
        &&& forall|i: int| 0 <= i < self.rows ==> #[trigger] self.cells[i].len() == self.cols
        &&& forall|i: int, j: int|
            0 <= i < self.rows && 0 <= j < self.cols ==> is_trit(#[trigger] self.cells[i][j])
    }

    /// The same matrix with cell `(i, j)` replaced by `v`.
    pub open spec fn with_cell(self, i: int, j: int, v: int) -> MatrixView {
        MatrixView {
            rows: self.rows,
            cols: self.cols,
            cells: self.cells.update(i, self.cells[i].update(j, v)),
        }
    }
}

/// The `rows × cols` matrix whose cell `(i, j)` is `f(i, j)`.
pub open spec fn view_from_fn(rows: nat, cols: nat, f: spec_fn(int, int) -> int) -> MatrixView {
    MatrixView { rows, cols, cells: Seq::new(rows, |i: int| Seq::new(cols, |j: int| f(i, j))) }
}

/// The `rows × cols` matrix of zeros.
pub open spec fn zero_view(rows: nat, cols: nat) -> MatrixView {
    view_from_fn(rows, cols, |i: int, j: int| 0int)
}

/// The `n × n` identity matrix.
pub open spec fn identity_view(n: nat) -> MatrixView {
    view_from_fn(
        n,
        n,
        |i: int, j: int|
            if i == j {
                1int
            } else {
                0int
            },
    )
}

/// The multiplier of the linear congruential generator behind `random`.
pub const LCG_MULTIPLIER: u64 = 6364136223846793005;

/// The increment of the linear congruential generator behind `random`.
pub const LCG_INCREMENT: u64 = 1442695040888963407;

/// One step of the generator, with wrapping 64-bit arithmetic.
pub open spec fn lcg_step(s: u64) -> u64 {
    vstd::wrapping::u64_specs::wrapping_add(
        vstd::wrapping::u64_specs::wrapping_mul(s, LCG_MULTIPLIER),
        LCG_INCREMENT,
    )
}

/// The generator state after `n` steps from `seed`.
pub open spec fn lcg_state(seed: u64, n: nat) -> u64
    decreases n,
{
    if n == 0 {
        seed
    } else {
        lcg_step(lcg_state(seed, (n - 1) as nat))
    }
}

/// The trit drawn from a generator state: its top two bits, modulo 3.
pub open spec fn trit_of_state(s: u64) -> int {
    let t = (s >> 62u64) % 3;
    if t == 0 {
        -1
    } else if t == 1 {
        0
    } else {
        1
    }
}

/// A ternary matrix storing elements as `i8` in {-1, 0, +1}, row-major.
#[derive(Clone, Debug, PartialEq, Eq)]
pub struct TernaryMatrix {
    rows: usize,
    cols: usize,
    data: Vec<i8>,
}

impl View for TernaryMatrix {
    type V = MatrixView;

    closed spec fn view(&self) -> MatrixView {
        MatrixView {
            rows: self.rows as nat,
            cols: self.cols as nat,
            cells: grid(ints_i8(self.data@), self.rows as nat, self.cols as nat),
        }
    }
}

impl TernaryMatrix {
    /// The storage holds exactly `rows * cols` trits.
    pub closed spec fn inv(&self) -> bool {
        &&& self.data@.len() == self.rows * self.cols
        &&& self.rows * self.cols <= usize::MAX
        &&& forall|k: int| 0 <= k < self.data@.len() ==> is_trit(#[trigger] self.data@[k] as int)
    }

    /// Well-formedness: a valid representation of a matrix of trits.
    pub open spec fn wf(&self) -> bool {
        &&& self.inv()
        &&& self@.wf()
        &&& self@.rows * self@.cols <= usize::MAX
    }

    /// The invariant of the storage gives a well-formed view.
    proof fn lemma_inv_view(&self)
        requires
            self.inv(),
        ensures
            self@.wf(),
            self@.rows * self@.cols <= usize::MAX,
    {
        assert forall|i: int, j: int|
            0 <= i < self.rows && 0 <= j < self.cols implies is_trit(
            #[trigger] self@.cells[i][j],
        ) by {
            lemma_flat_index_bounds(i, j, self.rows as int, self.cols as int);
        }
    }

    /// Create a new zero-filled ternary matrix.
    pub fn zeros(rows: usize, cols: usize) -> (m: Self)
        requires
            rows * cols <= usize::MAX,
        ensures
            m.wf(),
            m@ == zero_view(rows as nat, cols as nat),
    {
        let data: Vec<i8> = vec![0; rows * cols];
        let m = Self { rows, cols, data };
        proof {
            assert forall|k: int| 0 <= k < m.data@.len() implies #[trigger] m.data@[k] == 0 by {}
            m.lemma_inv_view();
            assert forall|i: int, j: int| 0 <= i < rows && 0 <= j < cols implies #[trigger] m@.cells[i][j] == 0 by {
                lemma_flat_index_bounds(i, j, rows as int, cols as int);
            }
            assert(m@ =~~= view_from_fn(rows as nat, cols as nat, |i: int, j: int| 0int));
        }
        m
    }

    /// Create from a row-major vector of trits.
    pub fn from_vec(rows: usize, cols: usize, data: Vec<i8>) -> (m: Self)
        requires
            data@.len() == rows * cols,
            forall|k: int| 0 <= k < data@.len() ==> is_trit(#[trigger] data@[k] as int),
        ensures
            m.wf(),
            m@ == view_from_fn(
                rows as nat,
                cols as nat,
                |i: int, j: int| data@[i * cols + j] as int,
            ),
    {
        let len = data.len();
        assert(len == rows * cols);
        let m = Self { rows, cols, data };
        proof {
            m.lemma_inv_view();
            assert forall|i: int, j: int| 0 <= i < rows && 0 <= j < cols implies #[trigger] m@.cells[i][j] == data@[i * cols + j] as int by {
                lemma_flat_index_bounds(i, j, rows as int, cols as int);
            }
            assert(m@ =~~= view_from_fn(
                rows as nat,
                cols as nat,
                |i: int, j: int| data@[i * cols + j] as int,
            ));
        }
        m
    }

    /// Create a pseudo-random ternary matrix from a seed: cell `k` in row-major
    /// order is drawn from the generator state after `k + 1` steps.
    pub fn random(rows: usize, cols: usize, seed: u64) -> (m: Self)
        requires
            rows * cols <= usize::MAX,
        ensures
            m.wf(),
            m@ == view_from_fn(
                rows as nat,
                cols as nat,
                |i: int, j: int| trit_of_state(lcg_state(seed, (i * cols + j + 1) as nat)),
            ),
    {
        let total = rows * cols;
        let mut s = seed;
        let mut data: Vec<i8> = Vec::new();
        let mut k: usize = 0;
        while k < total
            invariant
                total == rows * cols,
                k <= total,
                data@.len() == k,
                s == lcg_state(seed, k as nat),
                forall|q: int|
                    0 <= q < k ==> #[trigger] data@[q] as int == trit_of_state(
                        lcg_state(seed, (q + 1) as nat),
                    ),
            decreases total - k,
        {
            s = s.wrapping_mul(LCG_MULTIPLIER).wrapping_add(LCG_INCREMENT);
            let v: i8 = match (s >> 62) % 3 {
                0 => -1,
                1 => 0,
                _ => 1,
            };
            data.push(v);
            k = k + 1;
        }
        let m = Self { rows, cols, data };
        proof {
            m.lemma_inv_view();
            let f = |i: int, j: int| trit_of_state(lcg_state(seed, (i * cols + j + 1) as nat));
            assert forall|i: int, j: int| 0 <= i < rows && 0 <= j < cols implies #[trigger] m@.cells[i][j] == f(i, j) by {
                lemma_flat_index_bounds(i, j, rows as int, cols as int);
            }
            assert(m@ =~~= view_from_fn(rows as nat, cols as nat, f));
        }
        m
    }

    /// Identity matrix of size `n`.
    pub fn identity(n: usize) -> (m: Self)
        requires
            n * n <= usize::MAX,
        ensures
            m.wf(),
            m@ == identity_view(n as nat),
    {
        let mut m = Self::zeros(n, n);
        let mut i: usize = 0;
        while i < n
            invariant
                i <= n,
                m.wf(),
                m@.rows == n,
                m@.cols == n,
                forall|r: int, c: int|
                    0 <= r < n && 0 <= c < n ==> #[trigger] m@.cells[r][c] == if r == c && r < i {
                        1int
                    } else {
                        0int
                    },
            decreases n - i,
        {
            m.set(i, i, 1);
            i = i + 1;
        }
        proof {
            assert(m@ =~~= identity_view(n as nat));
        }
        m
    }

    /// Number of rows.
    pub fn rows(&self) -> (r: usize)
        ensures
            r == self@.rows,
    {
        self.rows
    }

    /// Number of columns.
    pub fn cols(&self) -> (c: usize)
        ensures
            c == self@.cols,
    {
        self.cols
    }

    /// Get element at (r, c).
    pub fn get(&self, r: usize, c: usize) -> (v: i8)
        requires
            self.wf(),
            r < self@.rows,
            c < self@.cols,
        ensures
            v == self@.cells[r as int][c as int],
            is_trit(v as int),
    {
        proof {
            lemma_flat_index_bounds(r as int, c as int, self.rows as int, self.cols as int);
        }
        self.data[r * self.cols + c]
    }

    /// Set element at (r, c) to the trit `v`.
    pub fn set(&mut self, r: usize, c: usize, v: i8)
        requires
            old(self).wf(),
            r < old(self)@.rows,
            c < old(self)@.cols,
            is_trit(v as int),
        ensures
            final(self).wf(),
            final(self)@ == old(self)@.with_cell(r as int, c as int, v as int),
    {
        proof {
            lemma_flat_index_bounds(r as int, c as int, self.rows as int, self.cols as int);
        }
        let k = r * self.cols + c;
        proof {
            lemma_ints_i8_update(self.data@, k as int, v);
            lemma_grid_update(
                ints_i8(self.data@),
                self.rows as nat,
                self.cols as nat,
                r as int,
                c as int,
                v as int,
            );
        }
        self.data.set(k, v);
        proof {
            self.lemma_inv_view();
        }
    }

    /// Round an accumulated integer to the nearest trit: its sign.
    pub(crate) fn round_to_trit(v: i32) -> (r: i8)
        ensures
            r == sign(v as int),
            v > 0 ==> r == 1,
            v < 0 ==> r == -1,
            v == 0 ==> r == 0,
    {
        match v {
            ..=-1 => -1,
            0 => 0,
            1.. => 1,
        }
    }

    /// Whether some element is zero.
    pub(crate) fn has_zero(&self) -> (z: bool)
        requires
            self.wf(),
        ensures
            z == exists|i: int, j: int|
                0 <= i < self@.rows && 0 <= j < self@.cols && #[trigger] self@.cells[i][j] == 0,
    {
        let mut k: usize = 0;
        while k < self.data.len()
            invariant
                self.wf(),
                k <= self.data@.len(),
                forall|q: int| 0 <= q < k ==> #[trigger] self.data@[q] != 0,
            decreases self.data@.len() - k,
        {
            if self.data[k] == 0 {
                proof {
                    let i = k as int / self.cols as int;
                    let j = k as int % self.cols as int;
                    lemma_flat_index_decompose(k as int, self.rows as int, self.cols as int);
                    assert(self@.cells[i][j] == 0);
                }
                return true;
            }
            k = k + 1;
        }
        proof {
            assert forall|i: int, j: int|
                0 <= i < self@.rows && 0 <= j < self@.cols implies #[trigger] self@.cells[i][j]
                != 0 by {
                lemma_flat_index_bounds(i, j, self.rows as int, self.cols as int);
            }
        }
        false
    }
}

} // verus!
