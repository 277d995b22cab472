[package]
name = "vvdaw"
version = "0.1.0"
edition = "2021"
publish = false

[dependencies]
serde = { version = "1", features = ["derive"] }
serde_json = "1"
ron = "*"
hound = "3"
rtrb = "0.3"
crossbeam-channel = "0.5"
anyhow = "1"
clap = { version = "4", features = ["derive"] }
thiserror = "*"
tracing = "0.1"
libloading = "*"
