[package]
name = "samply_mcp"
version = "0.1.0"
edition = "2021"
publish = false

[dependencies]
addr2line = { version = "*", features = ["loader"] }
anyhow = "1"
clap = { version = "4", features = ["derive"] }
flate2 = "1"
linux-perf-data = "*"
memmap2 = "*"
mimalloc = "*"
object = "*"
regex = "1"
rmcp = { version = "*", features = ["server", "macros", "transport-io", "schemars"] }
serde = { version = "1", features = ["derive"] }
serde_json = { version = "1", features = ["raw_value"] }
tokio = { version = "1", features = ["full"] }
