[package]
name = "server_core"
version = "0.1.0"
edition = "2021"
publish = false

[dependencies]
anyhow = "=1.0.104"
bcrypt = "=0.19.3"
hex = "=0.4.3"
rand = "=0.9.5"
quinn = { version = "=0.11.12", default-features = false, features = ["runtime-tokio", "rustls-ring", "log"] }
rcgen = { version = "=0.14.10", default-features = false, features = ["ring", "pem"] }
rustls = { version = "=0.23.45", default-features = false, features = ["ring", "std", "logging"] }
tokio = { version = "=1.53.2", features = ["rt-multi-thread", "macros", "sync", "net", "time", "signal"] }
tokio-util = "=0.7.19"
