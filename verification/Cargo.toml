[package]
name = "world_actor"
version = "0.1.0"
edition = "2021"
publish = false

[dependencies]
axum = "*"
bytes = "*"
fastwebsockets = { version = "*", features = ["upgrade", "with_axum"] }
tokio = { version = "*", features = ["macros", "net", "rt-multi-thread", "sync", "time"] }
