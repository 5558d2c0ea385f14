//! The sparse representation: the set of live coordinates on a torus, with
//! the cells born and died in the last generation.

pub mod digest;
pub mod grid;
pub mod laws;
pub mod patterns;
pub mod rules;
pub mod torus;
