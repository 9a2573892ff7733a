[package]
name = "arloader"
version = "0.1.0"
edition = "2021"
publish = false

[dependencies]
sha2 = "=0.11.0"
blake3 = "=1.8.7"
infer = "=0.22.0"
chrono = "=0.4.45"
serde = { version = "*", features = ["derive"] }
serde_json = "*"
reqwest = { version = "*", default-features = false, features = ["json"] }
tokio = { version = "*", features = ["rt-multi-thread", "macros", "fs"] }
futures = "*"
url = "*"
async-trait = "*"
num-bigint = "*"
rsa = { version = "=0.9.10", features = ["sha2"] }
