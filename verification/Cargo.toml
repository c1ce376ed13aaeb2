[package]
name = "bevy_sqlx"
version = "0.1.0"
edition = "2021"
publish = false

[dependencies]
bevy_app = { version = "0.14", default-features = false }
bevy_ecs = { version = "0.14", default-features = false, features = ["multi_threaded"] }
bevy_tasks = { version = "0.14", features = ["multi_threaded"] }
sqlx = { version = "0.8", default-features = false, features = ["runtime-async-std", "sqlite"] }
