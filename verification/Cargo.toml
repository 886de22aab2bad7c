[package]
name = "colyseus"
version = "0.1.0"
edition = "2021"
publish = false

[dependencies]
async-openai = { version = "=0.31.1", features = ["chat-completion"] }
async-trait = "=0.1.92"
axum = { version = "=0.8.9", features = ["ws"] }
bytes = "=1.12.1"
crc32fast = "=1.5.4"
dashmap = "=6.2.1"
futures = "=0.3.34"
jsonwebtoken = "=9.3.1"
nanoid = "=0.4.0"
parking_lot = "=0.12.5"
redis = { version = "=1.8.1", features = ["tokio-comp", "connection-manager"] }
rmp-serde = "=1.3.1"
serde = { version = "=1.0.229", features = ["derive"] }
serde_bytes = "=0.11.19"
serde_json = "=1.0.154"
sysinfo = "=0.30.13"
tokio = { version = "=1.54.1", features = ["full"] }
tokio-stream = { version = "=0.1.19", features = ["sync"] }
tower-http = { version = "=0.6.11", features = ["cors", "fs", "trace"] }
tracing = "=0.1.44"
tracing-subscriber = { version = "=0.3.23", features = ["env-filter"] }

[dev-dependencies]
json-patch = "=4.2.0"
