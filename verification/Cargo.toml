[package]
name = "flake_lock_prune"
version = "0.1.0"
edition = "2021"
publish = false

[dependencies]
bpaf = { version = "0.9", features = ["derive"] }
dotwalk = "*"
owo-colors = "4"
serde = { version = "1", features = ["derive"] }
serde_json = "1"
serde_path_to_error = "0.1"
