[package]
name = "nftfi"
version = "0.1.0"
edition = "2021"
publish = false

[dependencies]
async-stream = "*"
chrono = { version = "*", features = ["serde"] }
ethereum-types = { version = "*", features = ["serialize"] }
futures = "*"
governor = "*"
reqwest = { version = "*", default-features = false }
serde = { version = "*", features = ["derive"] }
serde_json = "*"
serde_path_to_error = "*"
thiserror = "*"
tracing = "*"
url = "*"
