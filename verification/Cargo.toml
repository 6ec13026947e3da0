[package]
name = "read_receipts"
version = "0.1.0"
edition = "2021"
publish = false

[dependencies]
eyeball-im = "0.4"
ruma = { version = "0.9.4", features = ["events", "compat-arbitrary-length-ids", "compat-user-id", "unstable-msc1767", "unstable-msc3381"] }
serde = { version = "1", features = ["derive"] }
tracing = "0.1"
