[package]
name = "nvim_rs"
version = "0.1.0"
edition = "2021"
publish = false

[dependencies]
futures = "*"
tokio = { version = "*", features = ["full"] }
pin-project = "*"

[dev-dependencies]
rmpv = "*"
