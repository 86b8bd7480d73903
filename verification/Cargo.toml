[package]
name = "alagent"
version = "0.1.0"
edition = "2021"
publish = false

[dependencies]
uuid = { version = "=1.29.0", features = ["v4"] }
chrono = "=0.4.45"
serde = { version = "=1.0.229", features = ["derive"] }
serde_json = "=1.0.154"
anyhow = "=1.0.104"
async-trait = "=0.1.92"
tokio = { version = "=1.54.1", features = ["full"] }
tracing = "=0.1.44"
tracing-subscriber = "=0.3.23"
dotenvy = "=0.15.7"
base64 = "=0.22.1"
glob = "=0.3.4"
schemars = "=1.2.3"
zip = "=9.2.2"
reqwest = { version = "=0.13.5", features = ["json"] }
async-openai = { version = "=0.43.0", features = ["chat-completion", "embedding"] }
rmcp = { version = "=3.8.0", features = ["client", "server", "macros", "transport-io", "transport-child-process", "transport-streamable-http-client-reqwest", "reqwest"] }
