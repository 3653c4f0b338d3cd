[package]
name = "ml_prodcheck"
version = "0.1.0"
edition = "2021"
publish = false

[dependencies]
ark-bls12-381 = "=0.4.0"
ark-ec = "=0.4.2"
ark-ff = "=0.4.2"
ark-linear-sumcheck = "=0.4.0"
ark-poly = "=0.4.2"
ark-serialize = "=0.4.2"
ark-std = "=0.4.0"
