[package]
name = "ws_load"
version = "0.1.0"
edition = "2021"
publish = false

[dependencies]
actix = "0.10"
actix-codec = "0.3"
actix-web = { version = "3", default-features = false }
actix-web-actors = "3"
anyhow = "1"
awc = { version = "2", default-features = false }
futures = "0.3"
log = "0.4"
pretty_env_logger = "0.4"
structopt = "0.3"
tokio = { version = "0.2", features = ["time", "signal"] }
