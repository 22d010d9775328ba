[package]
name = "argus"
version = "0.1.0"
edition = "2021"
publish = false

[dependencies]
hashbrown = "0.14"
thiserror = "1"
