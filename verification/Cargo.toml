[package]
name = "stacker_engine"
version = "0.1.0"
edition = "2021"
publish = false

[dependencies]
heapless = "0.8"
rand = "0.8"
rand_chacha = "0.3"
serde = { version = "1", features = ["derive"] }
macroquad = "0.4"
