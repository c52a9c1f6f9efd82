[package]
name = "pool_controller"
version = "0.1.0"
edition = "2021"
publish = false

[dependencies]
esp-idf-svc = "*"
log = "0.4"
thiserror = "*"
