[package]
name = "relaymail"
version = "0.1.0"
edition = "2021"
publish = false

[dependencies]
anyhow = "1"
async-smtp = { version = "0.10", default-features = false, features = ["runtime-tokio"] }
num-traits = "0.2"
rand = "0.9"
rusqlite = "0.37"
schemars = "0.8"
serde = { version = "1", features = ["derive"] }
serde_json = "1"
tokio = { version = "1", features = ["rt", "sync", "time", "macros", "net", "io-util"] }
typescript-type-def = "0.5"
