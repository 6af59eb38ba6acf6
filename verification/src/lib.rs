//! Polynomials over a coefficient type with the usual arithmetic operators, and
//! the classical orthogonal polynomial families built from them.

pub mod polynomial;
pub mod laws;
pub mod ring;
pub mod special;
pub mod operation_laws;
