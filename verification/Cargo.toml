[package]
name = "token_tax"
version = "0.1.0"
edition = "2021"
publish = false

[dependencies]
alloy-primitives = "0.5"
serde = { version = "1", features = ["derive"] }
thiserror = "1"
jsonrpsee = { version = "0.20", features = ["server", "macros"] }
async-trait = "0.1"
clap = { version = "4", features = ["derive"] }
eyre = "0.6"

[dev-dependencies]
alloy-sol-types = "0.5"
alloy-dyn-abi = "0.5"
