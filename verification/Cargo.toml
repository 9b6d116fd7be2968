[package]
name = "codemap"
version = "0.3.0"
edition = "2021"
publish = false

[dependencies]
anyhow = "1"
blake3 = { version = "1", features = ["pure"] }
clap = { version = "4.5", features = ["derive"] }
ignore = "0.4"
oxc = { version = "0.118", features = ["semantic"] }
oxc_resolver = "11.19"
petgraph = "0.8"
rayon = "1"
rmcp = { version = "0.16", features = ["server", "transport-io"] }
rusqlite = { version = "0.38", features = ["bundled"] }
serde = { version = "1", features = ["derive"] }
serde_json = "1"
tempfile = "3"
tokio = { version = "1", features = ["macros", "rt-multi-thread"] }
tracing = "0.1"
tracing-subscriber = "0.3"
ureq = { version = "3", features = ["json"] }
