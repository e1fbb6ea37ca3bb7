[package]
name = "tuicr"
version = "0.1.0"
edition = "2021"
publish = false

[dependencies]
anyhow = "*"
arboard = "*"
chrono = "*"
crossterm = "*"
git2 = { version = "*", default-features = false }
ratatui = "*"
serde_json = "*"
thiserror = "*"
