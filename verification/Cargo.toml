[package]
name = "wallfacer"
version = "0.1.0"
edition = "2021"
publish = false

[dependencies]
indexmap = "2"
human-sort = "*"
itertools = "*"
serde = { version = "1", features = ["derive"] }
serde_json = "1"
toml = "*"
dirs = "*"
clap = { version = "4", features = ["derive"] }
clap_complete = "4"
image = { version = "*", default-features = false, features = ["jpeg", "png", "webp"] }
xmpkit = "*"
ordered-float = "*"
thiserror = "*"
rust-ini = "*"
