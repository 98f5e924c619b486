//! The layers that a network on images is made of.

pub mod avg_pooling_layer;
pub mod direct_conv_layer;
pub mod max_pooling_layer;
