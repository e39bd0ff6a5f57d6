[package]
name = "langfuck"
version = "0.1.0"
edition = "2021"
publish = false

[dependencies]
clap = { version = "*", features = ["derive"] }
owo-colors = "*"
peekmore = "*"
serde = { version = "*", features = ["derive"] }
serde_json = "*"
