[package]
name = "sui-benchmark"
version = "0.1.0"
edition = "2021"
publish = false

[dependencies]
anyhow = "1"
async-trait = "0.1"
bcs = "0.1"
itertools = "0.10"
rand = "0.8"
rand_distr = "0.4"
tokio = { version = "1", features = ["time", "rt", "macros"] }
tracing = "0.1"
