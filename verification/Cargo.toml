[package]
name = "imgcache"
version = "0.1.0"
edition = "2021"
publish = false

[dependencies]
sha1 = "*"
axum = "*"
bytes = "*"
image = "*"
reqwest = { version = "*", default-features = false }
serde = { version = "*", features = ["derive"] }
tokio = { version = "*", features = ["rt-multi-thread", "macros", "net", "sync", "time"] }
tower-http = { version = "*", features = ["cors"] }
