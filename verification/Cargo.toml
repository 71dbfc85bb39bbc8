[package]
name = "xiuxian"
version = "0.1.0"
edition = "2021"
publish = false

[dependencies]
anyhow = "1"
bevy = { version = "0.16", default-features = false, features = ["std", "bevy_log"] }
bevy_prng = { version = "0.11", features = ["wyrand"] }
bevy_rand = { version = "0.11", features = ["wyrand"] }
itertools = "0.14"
rand = "0.9"
serde = { version = "1", features = ["derive"] }
serde_json = "1"
