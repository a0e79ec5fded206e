[package]
name = "r2d2"
version = "0.1.0"
edition = "2021"
publish = false

[dependencies]
aead = "0.4"
blake2 = "0.10"
camino = "1"
cargo_metadata = "0.14"
chacha20poly1305 = "0.9"
clap = { version = "3", features = ["cargo"] }
digest = "0.10"
generic-array = "0.14"
goblin = "0.5"
prettyplease = "0.1"
proc-macro2 = { version = "1", features = ["span-locations"] }
quote = "1"
rand = "0.8"
scroll = "0.11"
serde_json = "1"
subtle = "2"
syn = { version = "1", features = ["full", "visit", "visit-mut", "extra-traits"] }
typenum = "1"
walkdir = "2"
zeroize = "1"
