//! Depth-first search over an implicit graph of states.
//!
//! - `model` states what a search is: the states it keeps, the step it takes
//!   and where it ends, as mathematics over sequences.
//! - `laws` proves what holds of every search, and `termination` that a
//!   search through a space without cycles ends.
//! - `graph` is the trusted boundary to `petgraph`, and `layout` relates the
//!   graph to the model.
//! - `tree` is the engine that runs.
//! - `puzzle` is a small space of numbers to search.

pub mod graph;
pub mod laws;
pub mod layout;
pub mod model;
pub mod puzzle;
pub mod termination;
pub mod tree;

pub use model::{SearchState, Solvable};
pub use tree::{Outcome, SearchTree};
