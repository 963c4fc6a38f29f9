//! Ternary matrix multiplication for matrices with elements in {-1, 0, +1}:
//! naive, cache-tiled, XNOR + popcount and Strassen multiplication, each
//! proved to compute the sign of the integer matrix product.
pub mod algebra;
pub mod elementwise;
pub mod grid;
pub mod laws;
pub mod matrix;
pub mod product;
pub mod strassen;
pub mod trit;
pub mod xnor;

pub use elementwise::{add_mat, sub_mat};
pub use matrix::TernaryMatrix;
pub use product::{naive_matmul, tiled_matmul};
pub use strassen::strassen_matmul;
pub use trit::{trit_add, trit_mul, trit_neg};
pub use xnor::xnor_matmul;
