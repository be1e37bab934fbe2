[package]
name = "r1cs_circuits"
version = "0.1.0"
edition = "2021"
publish = false

[dependencies]
num-bigint = "*"
poseidon-rs = "*"
ff_ce = "0.11"
bincode = "1"
