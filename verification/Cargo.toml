[package]
name = "essential_server"
version = "0.1.0"
edition = "2021"
publish = false

[dependencies]
anyhow = "*"
clap = { version = "*", features = ["derive"] }
essential-check = "*"
essential-constraint-vm = "*"
essential-hash = "*"
essential-lock = "*"
essential-sign = "*"
essential-state-asm = "*"
essential-types = "*"
futures = "*"
hex = "*"
postcard = { version = "*", features = ["alloc"] }
reqwest = { version = "*", default-features = false, features = ["json"] }
secp256k1 = { version = "*", features = ["rand"] }
serde = { version = "*", features = ["derive"] }
serde_json = "*"
thiserror = "*"
tokio = { version = "*", features = ["full"] }
tracing = "*"
