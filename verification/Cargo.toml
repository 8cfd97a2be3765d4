[package]
name = "campaign"
version = "0.1.0"
edition = "2021"
publish = false

[dependencies]
ulid = "1"
petgraph = { version = "0.6", default-features = false, features = ["stable_graph"] }
chrono = { version = "0.4", default-features = false, features = ["now", "std"] }
tokio = { version = "1", features = ["rt", "time", "sync"] }
reqwest = { version = "0.12", default-features = false }
