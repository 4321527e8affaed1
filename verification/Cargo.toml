[package]
name = "wealthfolio"
version = "0.1.0"
edition = "2021"
publish = false

[dependencies]
async-trait = "0.1"
axum = "0.7"
chrono = "=0.4.45"
diesel = { version = "2.2", default-features = false, features = ["sqlite", "r2d2", "chrono"] }
keyring = { version = "2", default-features = false, features = ["linux-no-secret-service"] }
log = "0.4"
reqwest = { version = "0.12", default-features = false, features = ["json"] }
rig-core = { version = "=0.32.0", default-features = false }
rust_decimal = "=1.43.0"
serde = { version = "1", features = ["derive"] }
serde_json = "=1.0.154"
tokio = { version = "1", features = ["process", "rt", "time", "macros"] }
uuid = { version = "=1.29.0", features = ["v4"] }
