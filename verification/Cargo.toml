[package]
name = "jiro_nn"
version = "0.1.0"
edition = "2021"
publish = false

[dependencies]
rand = "=0.8.8"
serde = { version = "=1.0.229", features = ["derive"] }
serde-aux = "=4.7.0"
polars = { version = "*", default-features = false, features = ["csv"] }
nalgebra = "*"
arrayfire = "*"
