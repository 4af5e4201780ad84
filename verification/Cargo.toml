[package]
name = "world_tree"
version = "0.1.0"
edition = "2021"
publish = false

[dependencies]
semaphore-rs-poseidon = "*"
semaphore-rs-hasher = "*"
ruint = "*"
axum = { version = "0.6", default-features = false, features = ["json"] }
ethers-core = { version = "2.0", default-features = false }
ethers-providers = { version = "2.0", default-features = false }
eyre = "0.6"
serde = { version = "1", features = ["derive"] }
tokio = { version = "1", features = ["rt", "sync", "time"] }
tracing = "0.1"
