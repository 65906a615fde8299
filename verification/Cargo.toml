[package]
name = "rustdv"
version = "0.1.0"
edition = "2021"
publish = false

[dependencies]
num-bigint = "=0.4.8"
syn = { version = "2", features = ["full"] }
quote = "1"
proc-macro2 = "1"
linkme = "0.3"
