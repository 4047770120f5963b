[package]
name = "revault_cli"
version = "0.1.0"
edition = "2021"
publish = false

[dependencies]
sha2 = "=0.10.9"
serde_json = "=1.0.154"
getrandom = "=0.3.4"
clap = "=4.6.7"
clap_complete = { version = "=4.6.11", features = ["unstable-dynamic"] }
tempfile = "=3.27.0"
