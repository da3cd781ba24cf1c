[package]
name = "canonicity_gadgets"
version = "0.1.0"
edition = "2021"
publish = false

[dependencies]
ff = "0.12"
halo2_proofs = "0.2.0"
pasta_curves = "0.4"
