//! Fixed-size linear algebra over integer scalars: vectors and matrices with
//! the structural operations, products, and cofactor-expansion determinants.

pub mod matrix;
pub mod vector;
