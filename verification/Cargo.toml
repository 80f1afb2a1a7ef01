[package]
name = "worker_runtime"
version = "0.1.0"
edition = "2021"
publish = false

[dependencies]
lru_time_cache = "=0.11.11"
itertools = "=0.10.5"
futures = "=0.3.34"
tokio = { version = "=1.54.1", features = ["sync", "time", "rt", "rt-multi-thread", "macros"] }
serde = { version = "1", features = ["derive"] }
