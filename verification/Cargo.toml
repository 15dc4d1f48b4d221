[package]
name = "pi_calc"
version = "0.1.0"
edition = "2021"
publish = false

[dependencies]
rug = "=1.30.0"
crossbeam-channel = "=0.5.17"
clap = "=2.34.0"
log = "=0.4.34"
simple_logger = "=1.16.0"

[dev-dependencies]
num-bigint = "0.4"
