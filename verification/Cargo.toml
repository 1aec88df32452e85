[package]
name = "pieshop"
version = "0.1.0"
edition = "2021"
publish = false

[dependencies]
bit-vec = "=0.10.1"
redis = "=0.20.2"
r2d2 = "=0.8.10"
r2d2_redis = "=0.14.0"
iron = "=0.6.1"
router = "=0.6.0"
persistent = "=0.4.0"
url = "=1.7.2"
rustc-serialize = "=0.3.25"
mustache = "=0.9.0"
