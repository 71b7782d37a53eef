[package]
name = "execpolicy"
version = "0.1.0"
edition = "2021"
publish = false

[dependencies]
multimap = "*"
shlex = "*"
serde = { version = "*", features = ["derive"] }
serde_json = "*"
thiserror = "*"
anyhow = "*"
