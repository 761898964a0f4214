[package]
name = "wlr_which_key"
version = "0.1.0"
edition = "2021"
publish = false

[dependencies]
anyhow = "*"
clap = { version = "*", features = ["derive"] }
indexmap = { version = "*", features = ["serde"] }
libc = "*"
pangocairo = "*"
serde = { version = "*", features = ["derive"] }
serde_yaml = "*"
smithay-client-toolkit = "*"
wayland-client = "*"
xkeysym = "*"
