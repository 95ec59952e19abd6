[package]
name = "template_rust"
version = "0.1.0"
edition = "2021"
publish = false

[dependencies]
anyhow = "*"
chrono = "*"
clap = { version = "*", features = ["derive"] }
crossterm = "*"
ratatui = "*"
sqlx = { version = "*", default-features = false, features = ["runtime-tokio", "sqlite"] }
tokio = { version = "*", features = ["macros", "rt-multi-thread", "time"] }
uuid = { version = "*", features = ["v4"] }
