[package]
name = "best_goats"
version = "0.1.0"
edition = "2021"
publish = false

[dependencies]
cookie = "*"
time = "*"
rand = "*"
serde = { version = "*", features = ["derive"] }
rmp-serde = "*"
