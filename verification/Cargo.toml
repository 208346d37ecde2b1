[package]
name = "context_engine"
version = "0.1.0"
edition = "2021"
publish = false

[dependencies]
anyhow = "1"
axum = "0.8"
chrono = { version = "0.4", features = ["serde"] }
clap = { version = "4", features = ["derive", "env"] }
dirs = "*"
ignore = "0.4"
rayon = "1"
regex = "1"
rmcp = { version = "*", features = ["server", "macros"] }
serde = { version = "1", features = ["derive"] }
serde_json = "1"
tokio = { version = "1", features = ["full"] }
tracing = "0.1"
tracing-subscriber = { version = "0.3", features = ["env-filter"] }
tree-sitter = "*"
tree-sitter-c = "*"
tree-sitter-cpp = "*"
tree-sitter-go = "*"
tree-sitter-java = "*"
tree-sitter-javascript = "*"
tree-sitter-python = "*"
tree-sitter-rust = "*"
tree-sitter-typescript = "*"
