//! Element-wise Z₃ addition and subtraction of ternary matrices.
use vstd::prelude::*;

use crate::matrix::{MatrixView, TernaryMatrix, view_from_fn};
use crate::trit::{trit_add, trit_neg, z3_add, z3_neg};

verus! {

/// Cell-by-cell Z₃ sum of two matrices of the same shape.
pub open spec fn add_view(a: MatrixView, b: MatrixView) -> MatrixView {
    view_from_fn(a.rows, a.cols, |i: int, j: int| z3_add(a.cells[i][j], b.cells[i][j]))
}

/// Cell-by-cell Z₃ difference `a + (-b)` of two matrices of the same shape.
pub open spec fn sub_view(a: MatrixView, b: MatrixView) -> MatrixView {
    view_from_fn(a.rows, a.cols, |i: int, j: int| z3_add(a.cells[i][j], z3_neg(b.cells[i][j])))
}

/// Element-wise Z₃ addition of two ternary matrices.
pub fn add_mat(a: &TernaryMatrix, b: &TernaryMatrix) -> (c: TernaryMatrix)
    requires
        a.wf(),
        b.wf(),
        a@.rows == b@.rows,
        a@.cols == b@.cols,
    ensures
        c.wf(),
        c@ == add_view(a@, b@),
{
    let rows = a.rows();
    let cols = a.cols();
    let mut c = TernaryMatrix::zeros(rows, cols);
    let mut i: usize = 0;
    while i < rows
        invariant
            a.wf(),
            b.wf(),
            rows == a@.rows,
            rows == b@.rows,
            cols == a@.cols,
            cols == b@.cols,
            i <= rows,
            c.wf(),
            c@.rows == rows,
            c@.cols == cols,
            forall|r: int, q: int|
                0 <= r < i && 0 <= q < cols ==> #[trigger] c@.cells[r][q] == z3_add(
                    a@.cells[r][q],
                    b@.cells[r][q],
                ),
        decreases rows - i,
    {
        let mut j: usize = 0;
        while j < cols
            invariant
                a.wf(),
                b.wf(),
                rows == a@.rows,
                rows == b@.rows,
                cols == a@.cols,
                cols == b@.cols,
                i < rows,
                j <= cols,
                c.wf(),
                c@.rows == rows,
                c@.cols == cols,
                forall|r: int, q: int|
                    0 <= r < rows && 0 <= q < cols && (r < i || (r == i && q < j))
                        ==> #[trigger] c@.cells[r][q] == z3_add(a@.cells[r][q], b@.cells[r][q]),
            decreases cols - j,
        {
            let v = trit_add(a.get(i, j), b.get(i, j));
            c.set(i, j, v);
            j = j + 1;
        }
        i = i + 1;
    }
    proof {
        assert(c@ =~~= add_view(a@, b@));
    }
    c
}

/// Element-wise Z₃ subtraction: `A + (-B)`, negating each cell of `B` by
/// explicit match.
pub fn sub_mat(a: &TernaryMatrix, b: &TernaryMatrix) -> (c: TernaryMatrix)
    requires
        a.wf(),
        b.wf(),
        a@.rows == b@.rows,
        a@.cols == b@.cols,
    ensures
        c.wf(),
        c@ == sub_view(a@, b@),
{
    let rows = a.rows();
    let cols = a.cols();
    let mut c = TernaryMatrix::zeros(rows, cols);
    let mut i: usize = 0;
    while i < rows
        invariant
            a.wf(),
            b.wf(),
            rows == a@.rows,
            rows == b@.rows,
            cols == a@.cols,
            cols == b@.cols,
            i <= rows,
            c.wf(),
            c@.rows == rows,
            c@.cols == cols,
            forall|r: int, q: int|
                0 <= r < i && 0 <= q < cols ==> #[trigger] c@.cells[r][q] == z3_add(
                    a@.cells[r][q],
                    z3_neg(b@.cells[r][q]),
                ),
        decreases rows - i,
    {
        let mut j: usize = 0;
        while j < cols
            invariant
                a.wf(),
                b.wf(),
                rows == a@.rows,
                rows == b@.rows,
                cols == a@.cols,
                cols == b@.cols,
                i < rows,
                j <= cols,
                c.wf(),
                c@.rows == rows,
                c@.cols == cols,
                forall|r: int, q: int|
                    0 <= r < rows && 0 <= q < cols && (r < i || (r == i && q < j))
                        ==> #[trigger] c@.cells[r][q] == z3_add(
                        a@.cells[r][q],
                        z3_neg(b@.cells[r][q]),
                    ),
            decreases cols - j,
        {
            let neg_y = trit_neg(b.get(i, j));
            let v = trit_add(a.get(i, j), neg_y);
            c.set(i, j, v);
            j = j + 1;
        }
        i = i + 1;
    }
    proof {
        assert(c@ =~~= sub_view(a@, b@));
    }
    c
}

} // verus!
