[package]
name = "prompt_store"
version = "0.1.0"
edition = "2021"
publish = false

[dependencies]
aes-gcm = "=0.10.3"
argon2 = "=0.5.3"
base64 = "=0.22.1"
rand = "=0.8.8"
clap = { version = "*", features = ["derive", "env"] }
tokio = { version = "*", features = ["rt-multi-thread", "macros"] }
llm = { version = "*", default-features = false }
serde = { version = "*", features = ["derive"] }
serde_json = "*"
serde_yaml = "*"
toml = "*"
chrono = { version = "*", default-features = false, features = ["clock"] }
console = "*"
dialoguer = { version = "*", default-features = false }
git2 = { version = "*", default-features = false }
shell-words = "*"
spinners = "*"
futures = "*"
