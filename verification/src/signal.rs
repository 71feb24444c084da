//! The vocabulary of the signal graph.

pub mod ops;
