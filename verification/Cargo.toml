[package]
name = "lumina_core"
version = "0.1.0"
edition = "2021"
publish = false

[dependencies]
blake3 = "=1.8.7"
ed25519-dalek = { version = "=2.2.0", features = ["rand_core"] }
anyhow = "=1.0.104"
async-trait = "=0.1.92"
axum = "=0.8.9"
bincode = "=1.3.3"
clap = { version = "=4.6.7", default-features = false, features = ["derive", "std", "help"] }
hex = "=0.4.3"
rand = "=0.8.8"
serde = { version = "=1.0.229", features = ["derive"] }
serde_json = "=1.0.154"
tokio = { version = "=1.54.1", default-features = false, features = ["rt-multi-thread", "macros", "sync", "time", "signal", "net"] }
tower-http = { version = "=0.6.11", features = ["cors"] }
tracing = "=0.1.44"
tracing-subscriber = { version = "=0.3.23", default-features = false, features = ["fmt", "std"] }
ark-bls12-381 = "=0.4.0"
ark-ff = "=0.4.2"
ark-groth16 = "=0.4.0"
ark-relations = "=0.4.0"
ark-serialize = "=0.4.2"
ark-snark = "=0.4.0"
libp2p = { version = "*", default-features = false, features = ["gossipsub", "mdns", "tokio", "macros"] }
reqwest = { version = "*", default-features = false, features = ["json"] }
