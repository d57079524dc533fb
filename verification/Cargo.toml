[package]
name = "quorridor"
version = "0.1.0"
edition = "2021"
publish = false

[dependencies]
mcts = "*"
serde = { version = "*", features = ["derive"] }
serde_json = "*"
