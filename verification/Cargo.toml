[package]
name = "stack_review"
version = "0.1.0"
edition = "2021"
publish = false

[dependencies]
agent-client-protocol = "=5.0.0"
anyhow = "=1.0.104"
imara-diff = "=0.2.0"
serde = { version = "=1.0.229", features = ["derive"] }
serde_json = { version = "=1.0.154", features = ["raw_value"] }
time = { version = "=0.3.55", features = ["formatting", "parsing", "local-offset"] }
url = "=2.5.8"
urlencoding = "=2.1.3"
uuid = { version = "=1.29.0", features = ["v4", "v5", "v7"] }
