pub mod backend;
pub mod graph;
pub mod laws;
pub mod model;
pub mod ndarray_ext;
pub mod op;
pub mod ops;
pub mod semantics;
pub mod shape;
pub mod slicing;
pub mod sorting;
