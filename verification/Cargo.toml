[package]
name = "yastl"
version = "0.1.2"
edition = "2021"
publish = false

[dependencies]
coz = "0.1"
flume = { version = "=0.10.14", default-features = false }
scopeguard = "=1.2.0"

[dev-dependencies]
num_cpus = "=1.17.0"
