//! A neural-network training engine whose tensor algebra, layers, optimizers and
//! training loop are verified with Verus.

pub mod benchmarking;
pub mod dataset;
pub mod datatable;
pub mod error;
pub mod fixed;
pub mod initializers;
pub mod layer;
pub mod learning_rate;
pub mod linalg;
pub mod loss;
pub mod model;
pub mod network;
pub mod optimizer;
pub mod preprocessing;
pub mod random;
pub mod scalar;
pub mod trainers;
pub mod vec_utils;
pub mod vision;
