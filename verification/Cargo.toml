[package]
name = "rkllm_cli"
version = "0.1.0"
edition = "2021"
publish = false

[dependencies]
anyhow = "*"
clap = { version = "*", features = ["derive"] }
crossterm = "*"
directories = "*"
libc = "*"
mime_guess = "*"
once_cell = "*"
path-absolutize = "*"
serde = { version = "*", features = ["derive"] }
serde_json = { version = "*", features = ["preserve_order"] }
shellexpand = "*"
tokio = { version = "*", features = ["full"] }
toml = "*"
unicode-segmentation = "*"
unicode-width = "*"
