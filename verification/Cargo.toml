[package]
name = "ncc"
version = "0.1.0"
edition = "2021"
publish = false

[dependencies]
anyhow = "=1.0.104"
clap = { version = "=4.6.7", features = ["derive"] }
cranelift-codegen = "=0.134.4"
cranelift-frontend = "=0.134.4"
cranelift-module = "=0.134.4"
cranelift-object = "=0.134.4"
target-lexicon = "0.13"
