[package]
name = "owldb"
version = "0.1.0"
edition = "2021"
publish = false

[dependencies]
bson = "2"
env_logger = "0.11"
log = "0.4"
tokio = { version = "1", features = ["fs", "macros", "rt-multi-thread"] }
