[package]
name = "polars_join"
version = "0.1.0"
edition = "2021"
publish = false

[dependencies]
ahash = "0.7"
hashbrown = { version = "0.9", default-features = false, features = ["inline-more"] }
num_cpus = "1"
rayon = "1"
