[package]
name = "release_feed"
version = "0.1.0"
edition = "2021"
publish = false

[dependencies]
diesel = { version = "2", features = ["sqlite"] }
reqwest = { version = "0.12", features = ["json"] }
rocket = "0.5"
rss = "2"
serde = { version = "1", features = ["derive"] }
tokio = { version = "1", features = ["sync", "time", "rt"] }
