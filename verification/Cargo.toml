[package]
name = "toon-mcp"
version = "0.1.0"
edition = "2021"
publish = false

[dependencies]
anyhow = "=1.0.104"
async-trait = "=0.1.92"
csv = "=1.4.0"
dotenvy = "=0.15.7"
jiff = "=0.2.39"
rmcp = { version = "=1.8.0", features = ["server", "macros", "transport-io"] }
schemars = "=1.2.3"
serde = { version = "=1.0.229", features = ["derive"] }
serde_json = "=1.0.150"
thiserror = "=2.0.21"
tokio = { version = "=1.54.1", features = ["full"] }
toon-format = { version = "=0.5.0", default-features = false }
tracing = "=0.1.44"
tracing-subscriber = { version = "=0.3.23", features = ["env-filter"] }
ureq = { version = "=3.5.1", features = ["json"] }
xxhash-rust = { version = "=0.8.19", features = ["xxh3"] }
