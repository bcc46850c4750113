[package]
name = "acquisim"
version = "0.1.0"
edition = "2021"
publish = false

[dependencies]
sha2 = "0.10"
time = { version = "0.3", features = ["formatting", "serde"] }
url = { version = "2", features = ["serde"] }
uuid = { version = "1", features = ["v4", "serde"] }
anyhow = "1"
askama = "0.12"
axum = "0.7"
reqwest = { version = "0.12", default-features = false, features = ["json"] }
secrecy = { version = "0.8", features = ["serde"] }
serde = { version = "1", features = ["derive"] }
thiserror = "1"
tokio = { version = "1", features = ["macros", "net", "rt-multi-thread", "signal", "sync"] }
tracing = "0.1"
