[package]
name = "licensure"
version = "0.1.0"
edition = "2021"
publish = false

[dependencies]
chrono = "*"
clap = { version = "*", features = ["derive"] }
log = "*"
regex = "*"
serde = { version = "*", features = ["derive"] }
serde_yaml = "*"
simplelog = "*"
textwrap = "*"
ureq = { version = "*", features = ["json"] }
