# ternary_matmul

Multiplication of matrices whose entries are trits (-1, 0, +1), with four
strategies: naive, cache-tiled, XNOR + popcount for sign matrices, and
Strassen's algorithm. Every strategy is verified with Verus to return the
same matrix: each cell is the sign of the integer dot product of a row and a
column.

Layout of `src/`:

- `trit.rs` — Z₃ arithmetic on single trits and its field laws.
- `grid.rs` — row-major index arithmetic.
- `matrix.rs` — `TernaryMatrix`, its view `MatrixView`, constructors and access.
- `algebra.rs` — integer matrices as sequences, dot products, block identities
  and Strassen's recombination.
- `product.rs` — the product specification, `naive_matmul`, `tiled_matmul`.
- `xnor.rs` — bit packing and `xnor_matmul`.
- `strassen.rs` — exact integer Strassen recursion and `strassen_matmul`.
- `elementwise.rs` — `add_mat`, `sub_mat`.
- `laws.rs` — identity, zero, add/sub and read-after-write laws.

`app/` holds `time_fn`, which reads the clock and prints.
