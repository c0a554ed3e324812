[package]
name = "faer"
version = "0.1.0"
edition = "2021"
publish = false

[dependencies]
gemm = "*"
pulp = "*"
rayon = "1"

[dev-dependencies]
rand = "0.8"
rand_distr = "0.4"
