[package]
name = "agent_backend"
version = "0.1.0"
edition = "2021"
publish = false

[dependencies]
anyhow = "=1.0.104"
async-openai = { version = "=0.43.0", default-features = false, features = ["chat-completion", "native-tls"] }
axum = { version = "=0.8.9", features = ["ws"] }
chrono = "=0.4.45"
crossterm = "=0.28.1"
dotenvy = "=0.15.7"
futures-util = "=0.3.34"
imap = "=2.4.1"
mail-parser = "0.11"
native-tls = "=0.2.18"
pdf-extract = "=0.12.1"
ratatui = { version = "=0.29.0", default-features = false, features = ["crossterm"] }
reqwest = { version = "=0.13.5", default-features = false, features = ["json", "query", "native-tls"] }
serde = { version = "=1.0.229", features = ["derive"] }
serde_json = "=1.0.154"
tokio = { version = "=1.54.1", features = ["full"] }
tokio-tungstenite = "=0.30.0"
tower-http = { version = "=0.7.1", features = ["fs"] }
unicode-width = "=0.2.0"
webbrowser = "=1.2.6"
