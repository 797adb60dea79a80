[package]
name = "cydonia"
version = "0.1.0"
edition = "2021"
publish = false

[dependencies]
anyhow = "=1.0.104"
async-lock = "=3.4.2"
ccli = "=0.0.3"
chrono = "=0.4.45"
etc = "=0.1.20"
futures = "=0.3.34"
handlebars = { version = "=6.4.4", features = ["dir_source"] }
notify = "=8.2.0"
pulldown-cmark = "=0.13.4"
serde = { version = "=1.0.229", features = ["derive"] }
serde_json = "=1.0.151"
tokio = { version = "=1.53.2", features = ["rt-multi-thread"] }
toml = "=1.1.6"
tracing = "=0.1.44"
warp = { version = "=0.4.3", features = ["server", "websocket"] }
