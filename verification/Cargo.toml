[package]
name = "jcdc"
version = "0.1.0"
edition = "2021"
publish = false

[dependencies]
jdc-core = "=0.1.11"
anyhow = "=1.0.104"
