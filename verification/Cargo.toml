[package]
name = "wpfxm"
version = "0.1.0"
edition = "2021"
publish = false

[dependencies]
anyhow = "1"
chrono = "0.4"
clap = "2"
colored = "2"
dirs = "*"
hashbrown = "*"
serde = { version = "1", features = ["derive"] }
termion = "1.5"
toml = "0.5"
tui = { version = "0.19", default-features = false, features = ["termion"] }
