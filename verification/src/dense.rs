//! The dense representation: a fixed array of cell states with clamped edges.

pub mod cell;
pub mod grid;
pub mod laws;
pub mod rules;
