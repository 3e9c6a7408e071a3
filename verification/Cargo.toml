[package]
name = "floppy_server"
version = "0.1.0"
edition = "2021"
publish = false

[dependencies]
alloy = { version = "0.3", default-features = false, features = ["std", "signer-local", "sol-types", "provider-http", "rpc-types", "contract"] }
sqlx = { version = "0.8", default-features = false, features = ["runtime-tokio", "postgres"] }
tokio = { version = "1", features = ["rt-multi-thread", "macros", "time"] }
chrono = { version = "0.4", default-features = false, features = ["clock"] }
dotenv = "0.15"
eyre = "0.6"
serde = { version = "1", features = ["derive"] }
