[package]
name = "agent_slint"
version = "0.1.0"
edition = "2021"
publish = false

[dependencies]
prost = "0.14"
serde_json = "1"
tokio = { version = "1", features = ["rt-multi-thread", "macros"] }
