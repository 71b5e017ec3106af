[package]
name = "lax"
version = "0.1.0"
edition = "2021"
publish = false

[dependencies]
dunce = "1"
serde = { version = "1", features = ["derive"] }
serde_json = "1"
thiserror = "2"
tokio = { version = "1", features = ["rt"] }
toml = "0.8"
tracing = "0.1"
tracing-subscriber = { version = "0.3", default-features = false, features = ["env-filter", "fmt"] }
ureq = { version = "2", default-features = false, features = ["json", "tls"] }
windows-sys = { version = "0.59", features = ["Win32_Foundation", "Win32_System_JobObjects", "Win32_System_Threading", "Win32_Security"] }
zip = { version = "2", default-features = false, features = ["deflate"] }
