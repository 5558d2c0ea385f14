//! A cellular-automaton engine in the Game-of-Life family: a dense grid with
//! clamped edges, a sparse toroidal grid with incremental diffs, pluggable
//! transition rules and a bounded history of snapshots for repeat detection.

pub mod code;
pub mod dense;
pub mod history;
pub mod random;
pub mod recency;
pub mod render;
pub mod snapshot;
pub mod sparse;
