[package]
name = "airwire"
version = "0.2.3"
edition = "2021"
publish = false

[dependencies]
anyhow = "1"
axum = { version = "0.8", features = ["ws"] }
bincode = "1.3"
chacha20poly1305 = "0.10"
clap = { version = "4", features = ["derive", "env"] }
cpal = "0.15"
crossterm = { version = "0.28", features = ["event-stream"] }
directories = "6"
futures-util = { version = "0.3", features = ["sink"] }
hex = "0.4"
mime_guess = "2"
rand = "0.8"
ratatui = "0.29"
serde = { version = "1", features = ["derive"] }
sha2 = "0.10"
spake2 = "0.4"
tempfile = "3"
tokio = { version = "1", features = ["full"] }
tokio-socks = "0.5"
tokio-tungstenite = { version = "0.26", features = ["rustls-tls-webpki-roots"] }
tracing = "0.1"
tracing-subscriber = { version = "0.3", features = ["env-filter"] }
url = "2"
zeroize = "1"
