[package]
name = "amm_replay"
version = "0.1.0"
edition = "2021"
publish = false

[dependencies]
anyhow = "=1.0.104"
arrow = { version = "=55.2.0", default-features = false }
base64 = "=0.22.1"
bs58 = "=0.5.1"
chrono = { version = "=0.4.45", default-features = false, features = ["clock", "serde", "std"] }
clap = { version = "=4.6.7", default-features = false, features = ["derive", "error-context", "help", "std", "usage"] }
ctrlc = "=3.5.2"
dotenvy = "=0.15.7"
futures = { version = "=0.3.34", default-features = false, features = ["std"] }
futures-util = { version = "=0.3.34", default-features = false, features = ["sink", "std"] }
glob = "=0.3.4"
parquet = { version = "=55.2.0", default-features = false, features = ["arrow", "zstd"] }
rayon = "=1.12.0"
reqwest = { version = "=0.12.28", default-features = false, features = ["json", "rustls-tls"] }
serde = { version = "=1.0.229", features = ["derive"] }
serde_json = "=1.0.154"
solana-pubkey = { version = "=2.4.0", default-features = false, features = ["std"] }
tokio = { version = "=1.54.1", features = ["rt-multi-thread", "sync", "time"] }
tokio-stream = { version = "=0.1.19", default-features = false }
tokio-tungstenite = { version = "=0.26.2", features = ["rustls-tls-webpki-roots"] }
tracing = { version = "=0.1.44", default-features = false, features = ["std"] }
tracing-subscriber = { version = "=0.3.23", default-features = false, features = ["ansi", "env-filter", "fmt"] }
yellowstone-grpc-client = { version = "13", default-features = false }
yellowstone-grpc-proto = { version = "12", default-features = false }
