[package]
name = "helix_term"
version = "0.1.0"
edition = "2021"
publish = false

[dependencies]
anyhow = "*"
chrono = "*"
clap = { version = "*", features = ["derive"] }
dirs-next = "*"
fern = "*"
log = "*"
tokio = { version = "*", features = ["rt-multi-thread"] }
toml = "*"
