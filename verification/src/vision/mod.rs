//! Networks on images: rank-4 tensors of rows, columns, channels and samples.

pub mod conv_activation;
pub mod conv_layer;
pub mod conv_network;
pub mod conv_optimizer;
pub mod image;
pub mod layout;
pub mod pooling;
pub mod pooling_fixed;
