[package]
name = "fung_preng_app"
version = "0.1.0"
edition = "2021"
publish = false

[dependencies]
anyhow = "1"
serde = { version = "1", features = ["derive"] }
serde_json = "1"
tokio = { version = "1", features = ["full"] }
uuid = { version = "1", features = ["v4"] }
ureq = "2"
reqwest = { version = "0.12", default-features = false, features = ["json", "rustls-tls"] }
symphonia = { version = "0.5", features = ["aac", "isomp4", "mp3"] }
rubato = "0.15"
realfft = "3"
rtrb = "0.3"
cpal = "0.15"
