[package]
name = "rv32_executor"
version = "0.1.0"
edition = "2021"
publish = false

[dependencies]
hashbrown = { version = "=0.14.5", features = ["serde"] }
serde = { version = "1", features = ["derive"] }
bincode = "1.3"
thiserror = "1"
eyre = "0.6"
log = "0.4"
tracing = "0.1"
