[package]
name = "leveling"
version = "0.1.0"
edition = "2021"
publish = false

[dependencies]
chrono = "=0.4.45"
descord = "=0.1.11"
dotenvy = "=0.15.7"
env_logger = "=0.11.11"
lazy_static = "=1.5.1"
nanoserde = "=0.1.37"
rand = "=0.8.8"
redis = "=1.8.0"
tokio = { version = "=1.54.1", features = ["macros", "rt-multi-thread", "sync"] }
