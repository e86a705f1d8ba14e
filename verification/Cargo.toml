[package]
name = "presenced"
version = "0.1.0"
edition = "2021"
publish = false

[dependencies]
anyhow = "=1.0.104"
bytes = "=1.12.1"
rumqttc = { version = "=0.24.0", features = ["url"] }
tokio = { version = "=1.53.2", features = ["macros", "rt-multi-thread"] }
