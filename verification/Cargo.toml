[package]
name = "invoice"
version = "0.1.0"
edition = "2021"
publish = false

[dependencies]
chrono = "*"
clap = { version = "*", features = ["derive"] }
directories = "*"
serde = { version = "*", features = ["derive"] }
serde_json = "*"
tabled = "*"
thiserror = "*"
toml = "*"
ureq = "*"
