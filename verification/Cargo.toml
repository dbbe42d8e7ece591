[package]
name = "volt"
version = "0.1.0"
edition = "2021"
publish = false

[dependencies]
anyhow = "*"
async-trait = "*"
colored = "*"
dirs = "*"
flate2 = "*"
jwalk = "*"
miette = "*"
reqwest = { version = "*", default-features = false }
tar = "*"
tokio = { version = "*", features = ["rt-multi-thread", "macros", "fs"] }
