[package]
name = "git_agent"
version = "0.1.0"
edition = "2021"
publish = false

[dependencies]
colored = "2"
dotenv = "0.15"
fastembed = { version = "=4.9.1", default-features = false, features = ["hf-hub-rustls-tls"] }
inquire = "0.7"
md5 = "=0.7.0"
rayon = "1"
reqwest = { version = "0.12", default-features = false, features = ["json", "rustls-tls"] }
serde = { version = "1", features = ["derive"] }
serde_json = "1"
tokio = { version = "1", features = ["macros", "rt-multi-thread"] }
tree-sitter = "=0.20.10"
tree-sitter-c = "=0.20.8"
tree-sitter-cpp = "=0.20.5"
tree-sitter-go = "=0.20.0"
tree-sitter-java = "=0.20.2"
tree-sitter-javascript = "=0.20.4"
tree-sitter-python = "=0.20.4"
tree-sitter-rust = "=0.20.4"
