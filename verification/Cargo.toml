[package]
name = "minicbor-embedded-io"
version = "0.1.0"
edition = "2021"
publish = false

[dependencies]
minicbor = { version = "=2.3.1", features = ["alloc"] }
embedded-io-async = "=0.7.0"
