[package]
name = "lox_scanner"
version = "0.1.0"
edition = "2021"
publish = false

[dependencies]
clap = { version = "4", features = ["derive"] }
dotenv = "*"
strum_macros = "*"
tracing = "*"
tracing-subscriber = { version = "*", features = ["env-filter"] }
