[package]
name = "sts_assume"
version = "0.1.0"
edition = "2021"
publish = false

[dependencies]
chrono = "*"
clap = { version = "*", features = ["derive"] }
dirs = "*"
serde_json = "*"
tokio = { version = "*", features = ["macros", "rt-multi-thread", "time"] }

[dev-dependencies]
rust-ini = "*"
