[package]
name = "raftcore"
version = "0.1.0"
edition = "2021"
publish = false

[dependencies]
bytes = "*"
comfy-table = "*"
once_cell = "*"
serde_json = "*"
slog = "*"
