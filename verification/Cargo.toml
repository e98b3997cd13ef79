[package]
name = "git_grove"
version = "0.1.0"
edition = "2021"
publish = false

[dependencies]
bstr = "=1.13.1"
clap = { version = "=4.6.7", features = ["derive"] }
clap_complete = "=4.6.11"
getrandom = "=0.2.17"
rustix = { version = "=1.1.6", features = ["fs", "process"] }
serde = { version = "=1.0.229", features = ["derive"] }
serde_json = "=1.0.154"
sha2 = "=0.10.9"
toml_edit = "0.22"
