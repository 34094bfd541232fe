[package]
name = "simtrack"
version = "0.1.0"
edition = "2021"
publish = false

[dependencies]
alloy = { version = "1", default-features = false, features = ["sol-types", "dyn-abi", "signers", "signer-local"] }
anyhow = "1"
chrono = "0.4"
reqwest = { version = "0.12", default-features = false }
rust_decimal = "1"
serde_json = "1"
tokio = { version = "1", features = ["sync", "macros", "rt-multi-thread"] }
