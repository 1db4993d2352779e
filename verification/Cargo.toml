[package]
name = "schedulecommit"
version = "0.1.0"
edition = "2021"
publish = false

[dependencies]
borsh = { version = "=1.8.1", features = ["derive"] }
env_logger = { version = "0.11", default-features = false }
ephemeral-rollups-sdk = { version = "=0.17.3", features = ["backward-compat"] }
futures-util = { version = "0.3", default-features = false, features = ["alloc"] }
log = "0.4"
solana-program = "2.2"
solana-sdk = { version = "2.2", default-features = false }
tokio = { version = "1", features = ["sync"] }
