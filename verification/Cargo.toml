[package]
name = "ye_olde_todos"
version = "0.1.0"
edition = "2021"
publish = false

[dependencies]
chrono = "*"
owo-colors = "*"
clap = { version = "*", features = ["derive"] }
ignore = "*"
rayon = "*"
serde = { version = "*", features = ["derive"] }
serde_json = "*"
terminal_size = "*"
