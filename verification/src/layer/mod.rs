//! The layers that a network is made of.

pub mod activation_layer;
pub mod dense_layer;
pub mod dropout_layer;
