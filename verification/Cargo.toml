[package]
name = "xdf-mcp"
version = "0.1.0"
edition = "2021"
publish = false

[dependencies]
anyhow = "1"
axum = "0.8"
base64 = "=0.22.1"
clap = { version = "4", features = ["derive", "env"] }
encoding_rs = "=0.8.44"
globset = "=0.4.21"
image = { version = "=0.25.10", default-features = false, features = ["png"] }
rmcp = { version = "1.8", features = ["server", "macros", "schemars", "transport-io", "transport-streamable-http-server"] }
serde = { version = "1", features = ["derive"] }
serde_json = "1"
tokio = { version = "1", features = ["macros", "rt-multi-thread", "net", "signal", "io-std"] }
tokio-util = "0.7"
tower-http = { version = "0.6", features = ["fs"] }
uuid = { version = "=1.29.0", features = ["v4"] }
zip = { version = "2", default-features = false }
