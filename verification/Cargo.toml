[package]
name = "cortex"
version = "0.2.1"
edition = "2021"
publish = false

[dependencies]
tree-sitter = "*"
tree-sitter-rust = "*"
tree-sitter-python = "*"
tree-sitter-javascript = "*"
tree-sitter-typescript = "*"
tree-sitter-java = "*"
sha2 = "*"
hex = "*"
regex = "*"
serde = { version = "1", features = ["derive"] }
serde_json = "1"
schemars = "*"
rmcp = { version = "*", features = ["server", "transport-io", "macros"] }
sqlx = { version = "0.8", default-features = false, features = ["runtime-tokio", "sqlite"] }
tokio = { version = "1", features = ["full"] }
tracing = "0.1"
tracing-subscriber = { version = "0.3", features = ["env-filter"] }
clap = { version = "4", features = ["derive"] }
notify = "*"
ignore = "*"
reqwest = { version = "*", default-features = false, features = ["json", "rustls-tls"] }
flate2 = "*"
tar = "*"
chrono = "*"
rand = "*"
toml = "*"
thiserror = "*"
