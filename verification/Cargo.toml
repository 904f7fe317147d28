[package]
name = "azure_iot_mqtt"
version = "0.1.0"
edition = "2021"
publish = false

[dependencies]
base64 = "*"
percent-encoding = "*"
serde_urlencoded = "*"
hmac = "*"
sha2 = "*"
mqtt-protocol = { version = "*", features = ["tokio"] }
tokio = { version = "1", features = ["net", "io-util", "sync", "time", "rt", "macros"] }
native-tls = "*"
tokio-native-tls = "*"
chrono = "*"
hyper = { version = "0.14", features = ["client", "http1", "tcp"] }
async-trait = "*"
