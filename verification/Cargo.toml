[package]
name = "e-agent"
version = "0.1.0"
edition = "2021"
publish = false

[dependencies]
anyhow = "1"
async-trait = "0.1"
base64 = "0.22"
chrono = { version = "0.4", features = ["serde"] }
crossterm = "*"
eventsource-stream = "0.2"
futures-util = "0.3"
greptimedb-ingester = "*"
opentelemetry-proto = { version = "*", features = ["gen-tonic", "trace", "metrics", "logs"] }
prost = "*"
rand = "0.9"
reqwest = { version = "0.12", default-features = false, features = ["json", "stream"] }
serde = { version = "1", features = ["derive"] }
serde_json = { version = "1", features = ["preserve_order"] }
sha2 = "0.10"
tokio = { version = "1", features = ["full"] }
tokio-postgres = "0.7"
toml = "*"
url = "2"
webbrowser = "1"

[dev-dependencies]
tempfile = "3"
