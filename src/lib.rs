//! Dense vectors and matrices over a scalar field, with their arithmetic,
//! norms, transpose, products, trace, reduced row-echelon form and
//! determinant.
//!
//! Every operation is stated over the integers its scalars stand for: the
//! contracts say exactly what is computed, and the `requires` clauses say
//! when the intermediate values fit in the scalar type. Shape mismatches are
//! reported as `Err` values, never by aborting.
pub mod field;
pub mod shape;
pub mod space;
pub mod vector;
pub mod matrix;
pub mod echelon;
pub mod determinant;
pub mod laws;
