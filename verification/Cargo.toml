[package]
name = "paged_memory"
version = "0.1.0"
edition = "2021"
publish = false

[dependencies]
rand = "0.8"
colored = "2"
color-eyre = "0.6"
eyre = "0.6"
owo-colors = "*"
tokio = { version = "1", features = ["rt-multi-thread", "macros", "sync"] }
