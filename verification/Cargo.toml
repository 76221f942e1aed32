[package]
name = "summer_lsp"
version = "0.1.0"
edition = "2021"
publish = false

[dependencies]
taplo = "*"
lsp-types = "0.94"
lsp-server = "0.7"
serde = { version = "1", features = ["derive"] }
serde_json = "1"
anyhow = "1"
thiserror = "1"
reqwest = { version = "0.12", default-features = false, features = ["json", "rustls-tls"] }
syn = { version = "2", features = ["full"] }
quote = "1"
tokio = { version = "1", features = ["rt-multi-thread", "macros"] }
tracing = "0.1"
tracing-subscriber = { version = "0.3", features = ["env-filter", "json"] }
atty = "0.2"
dirs = "5"
walkdir = "2"
