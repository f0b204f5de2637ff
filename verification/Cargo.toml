[package]
name = "ledb"
version = "0.4.0"
edition = "2021"
publish = false

[dependencies]
byteorder = "1"
regex = "1"
serde = { version = "1", features = ["derive"] }
serde_cbor = "0.11"
ron = "*"
lmdb-zero = "0.4"
supercow = "0.1"
dirs = "*"
dunce = "1"
ordered-float = "*"
actix = "*"
futures = "0.3"
