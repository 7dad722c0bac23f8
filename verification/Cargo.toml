[package]
name = "code_llm"
version = "0.1.0"
edition = "2021"
publish = false

[dependencies]
anyhow = "*"
clap = { version = "*", features = ["derive"] }
colored = "*"
dialoguer = "*"
dirs = "*"
regex = "*"
reqwest = { version = "*", default-features = false, features = ["json"] }
rustyline = "*"
serde = { version = "*", features = ["derive"] }
serde_json = "*"
similar = "*"
thiserror = "*"
tokio = { version = "*", features = ["macros", "rt-multi-thread"] }
toml = "*"
walkdir = "*"
