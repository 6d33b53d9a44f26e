[package]
name = "what-the-struct"
version = "0.1.0"
edition = "2021"
publish = false

[dependencies]
anyhow = "=1.0.104"
cargo_metadata = "=0.23.1"
clap = { version = "=4.6.7", features = ["derive"] }
color-eyre = "=0.6.5"
petgraph = "=0.8.3"
rayon = "=1.12.0"
reqwest = "=0.11.27"
rustdoc-json = "=0.9.10"
rustdoc-types = "=0.61.0"
serde_json = "=1.0.154"
serde_path_to_error = "=0.1.20"
soup = "=0.5.1"
tap = "=1.0.1"
tokio = { version = "=1.54.1", features = ["rt-multi-thread", "sync"] }
tracing = "=0.1.44"
tracing-error = "=0.2.1"
tracing-subscriber = { version = "=0.3.23", features = ["env-filter"] }
url = "=2.5.8"
