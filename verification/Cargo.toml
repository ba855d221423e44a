[package]
name = "bolt_routing"
version = "0.1.0"
edition = "2021"
publish = false

[dependencies]
backoff = "0.4"
dashmap = "6"
futures = "0.3"
log = "0.4"
serde = { version = "1", features = ["derive"] }
