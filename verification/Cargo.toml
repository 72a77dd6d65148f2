[package]
name = "shell_graph"
version = "0.1.0"
edition = "2021"
publish = false

[dependencies]
uuid = { version = "*", features = ["v4"] }
nix = { version = "*", features = ["fs"] }
nonblock = "*"
dirs = "*"
serde = { version = "*", features = ["derive"] }
serde_yaml = "*"
