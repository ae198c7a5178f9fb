[package]
name = "tilt_game"
version = "0.1.0"
edition = "2021"
publish = false

[dependencies]
clap = { version = "4", features = ["derive"] }
config = "*"
console = "*"
directories = "*"
once_cell = "1"
ron = "*"
serde = { version = "1", features = ["derive"] }
thiserror = "*"
