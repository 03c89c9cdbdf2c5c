[package]
name = "greeting_bench"
version = "0.1.0"
edition = "2021"
publish = false

[dependencies]
chrono = "0.4"
env_logger = "0.9"
futures = "0.3"
gettid = "0.1"
hyper = { version = "0.14", features = ["full"] }
log = "0.4"
prometheus = "0.13"
rand = "0.8"
structopt = "0.3"
tokio = { version = "1", features = ["full"] }
urlencoding = "2"
