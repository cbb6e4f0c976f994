[package]
name = "teperunner_worker"
version = "0.1.0"
edition = "2021"
publish = false

[dependencies]
dotenvy = "*"
redis = "*"
tokio = { version = "*", features = ["macros", "rt-multi-thread"] }
uuid = { version = "*", features = ["v4"] }

[dev-dependencies]
serde_json = "*"
