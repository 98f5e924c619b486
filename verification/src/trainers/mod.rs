//! Training runs: the epoch loop, with validation.

pub mod epochs;
pub mod kfolds;
pub mod sampling;
pub mod split;
pub mod table;
