[package]
name = "rgrep"
version = "0.1.0"
edition = "2021"
publish = false

[dependencies]
anyhow = "1"
async-trait = "0.1"
clap = { version = "4", features = ["derive"] }
colored = "2"
regex = "1"
tokio = { version = "1", features = ["full"] }
