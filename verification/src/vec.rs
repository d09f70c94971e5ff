//! The sparse vectors, their model and what is proved of them.

pub mod default_sparse_vec;
pub mod index_array;
pub mod laws;
pub mod model;
pub mod normal_vec_trait;
pub mod sparse_vec;
pub mod vec_trait;
