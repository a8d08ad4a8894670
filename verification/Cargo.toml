[package]
name = "psrp_rs"
version = "0.1.0"
edition = "2021"
publish = false
rust-version = "1.95"

[dependencies]
quick-xml = "=0.42.0"
uuid = "=1.29.0"
hmac = "=0.12.1"
sha1 = "=0.10.7"
tokio = { version = "=1.54.1", features = ["rt", "time", "sync", "macros"] }
async-trait = "=0.1.92"
tracing = "=0.1.44"
ssh-key = "=0.6.7"
