[package]
name = "mxindex"
version = "0.1.0"
edition = "2021"
publish = false

[dependencies]
regex = "*"
reqwest = { version = "*", default-features = false, features = ["json"] }
tokio = { version = "*", features = ["rt-multi-thread", "macros", "sync", "time"] }
futures = "*"
serde = { version = "*", features = ["derive"] }
serde_json = "*"
