[package]
name = "cluster_engine"
version = "0.1.0"
edition = "2021"
publish = false

[dependencies]
rand = "*"
csv = "*"
regex = "*"
serde = { version = "*", features = ["derive"] }
graphlib = "*"
ndarray = "*"
plotters = "*"
polars = { version = "*", default-features = false, features = ["csv"] }
