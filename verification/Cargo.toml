[package]
name = "johansen_null_eigenspectra"
version = "0.1.0"
edition = "2021"
publish = false

[dependencies]
nalgebra = "=0.35.0"
nalgebra-lapack = { version = "=0.28.0", default-features = false, features = ["lapack-custom"] }
num_cpus = "=1.17.0"
rand = "=0.9.5"
rand_distr = "=0.5.1"
rand_xoshiro = "=0.7.0"
rayon = "=1.12.0"
