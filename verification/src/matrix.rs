//! Dense matrices and their multiplication.
pub mod ring;
pub mod grid;
pub mod algebra;
pub mod blocks;
pub mod decomposition;
pub mod product_laws;
pub mod matrix;
pub mod naive_mul;
pub mod generic_strassen;
pub mod strassen_mul;
pub mod mixed_mul;
