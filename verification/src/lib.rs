//! Force-directed graph layout core: a degree-bounded random graph
//! generator and the integer-side scaffolding of an iterative position
//! solver (edge validation, adjacency indexing, position-matrix shape).

pub mod errors;
pub mod graph;
pub mod matrix;
pub mod randomness;
pub mod solver;
