[package]
name = "circom_algebra"
version = "0.1.0"
edition = "2021"
publish = false

[dependencies]
num-bigint-dig = "0.6"
num-traits = "0.2"
