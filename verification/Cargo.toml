[package]
name = "tasmota_mqtt_client"
version = "0.1.0"
edition = "2021"
publish = false

[dependencies]
rumqttc = "=0.25.1"
serde_json = "=1.0.151"
md-5 = "=0.11.0"
hex = "=0.4.3"
serde = { version = "*", features = ["derive"] }
tokio = { version = "*", features = ["rt", "rt-multi-thread", "sync", "time", "macros"] }
tokio-stream = { version = "*", features = ["sync"] }
async-stream = "*"
thiserror = "*"
tracing = "*"
bytes = "*"
