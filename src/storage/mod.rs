//! Storage primitives: a typed growable buffer and sparse/dense indexes.
pub mod blob_vec;
pub mod sparse_set;
pub mod table;
