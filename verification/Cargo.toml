[package]
name = "task_server"
version = "0.1.0"
edition = "2021"
publish = false

[dependencies]
rand = "0.8"
rand_chacha = "0.3"
rand_xoshiro = "0.6"
tokio = { version = "1", features = ["full"] }
