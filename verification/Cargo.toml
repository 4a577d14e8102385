[package]
name = "ferrogate"
version = "0.1.0"
edition = "2021"
publish = false

[dependencies]
sha2 = "0.10"
sha3 = "0.10"
ed25519-dalek = { version = "2", features = ["rand_core"] }
fips204 = "0.4"
p256 = { version = "0.13", features = ["ecdsa"] }
base64 = "0.22"
hex = "0.4"
subtle = "2"
rand_core = { version = "0.6", features = ["getrandom"] }
x509-parser = { version = "0.16", features = ["verify"] }
der = { version = "0.7", features = ["alloc", "oid"] }
zeroize = "1"
serde = { version = "1", features = ["derive"] }
serde_json = "1"
ciborium = "0.2"
thiserror = "1"
anyhow = "1"
parking_lot = "0.12"
tokio = { version = "1", features = ["rt-multi-thread", "macros", "net", "sync", "time"] }
tokio-stream = "0.1"
tokio-rustls = "0.26"
rustls = "0.23"
rustls-post-quantum = "0.2"
rustls-pemfile = "2"
tracing = "0.1"
tracing-subscriber = { version = "0.3", features = ["env-filter"] }
libc = "0.2"
caps = "0.5"
seccompiler = "0.4"

[dev-dependencies]
rcgen = "0.14"
