[package]
name = "axum-governor"
version = "0.1.0"
edition = "2021"
publish = false

[dependencies]
axum = "=0.8.9"
futures-util = "=0.3.34"
tower = "=0.5.3"
tracing = "=0.1.44"
