[package]
name = "fly"
version = "0.1.0"
edition = "2021"
publish = false

[dependencies]
anyhow = "*"
clap = { version = "*", features = ["derive"] }
dotenv = "*"
postgres = "*"
thiserror = "*"
tracing = "*"
tracing-subscriber = "*"
