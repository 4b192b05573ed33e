[package]
name = "command_runner"
version = "0.1.0"
edition = "2021"
publish = false

[dependencies]
uuid = { version = "*", features = ["v4"] }
serde = { version = "*", features = ["derive"] }
serde_json = "*"
tokio = { version = "*", features = ["rt-multi-thread", "process", "net"] }
axum = "*"
http = "*"
clap = { version = "*", features = ["derive"] }
clap_complete = "*"
toml = "*"
dunce = "*"
sqlx = { version = "*", default-features = false, features = ["runtime-tokio", "sqlite"] }
