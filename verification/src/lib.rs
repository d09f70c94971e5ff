//! Sparse vectors: sequences that keep only the elements that differ from a
//! default value, with their operations specified and proved.

pub mod vec;
