[package]
name = "yellowstone-faithful-car-source"
version = "0.1.0"
edition = "2021"
publish = false

[dependencies]
async-trait = "=0.1.92"
bincode = "=1.3.3"
cid = "=0.11.3"
clap = { version = "=4.6.7", features = ["derive", "env"] }
prost = "*"
serde = { version = "=1.0.229", features = ["derive"] }
serde_cbor = { version = "=0.11.2", features = ["tags"] }
solana-message = "=3.1.0"
solana-sdk = "=3.0.0"
thiserror = "=1.0.69"
tokio = { version = "=1.54.1", features = ["rt-multi-thread", "macros", "fs", "io-util", "process", "sync", "signal"] }
tracing = "=0.1.44"
yellowstone-grpc-proto = "=12.5.0"
yellowstone-vixen = { version = "=0.7.0", default-features = false }
yellowstone-vixen-core = "=0.7.0"
zstd = "=0.13.4"
