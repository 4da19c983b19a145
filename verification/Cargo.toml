[package]
name = "iron_sessionstorage"
version = "0.6.6"
edition = "2021"
publish = false

[dependencies]
cookie = { version = "=0.13.3", features = ["secure"] }
error-chain = "=0.12.4"
iron = "=0.6.1"
r2d2 = "=0.8.10"
r2d2_redis = "=0.14.0"
rand = "=0.4.6"
time = "=0.2.27"
