[package]
name = "act_iv"
version = "0.1.0"
edition = "2021"
publish = false

[dependencies]
git2 = "*"
walkdir = "*"
dunce = "*"
chrono = "*"
home = "*"
tabled = "*"
serde = { version = "*", features = ["derive"] }
toml = "*"

[dev-dependencies]
tempfile = "*"
