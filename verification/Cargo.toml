[package]
name = "sendme"
version = "0.1.0"
edition = "2021"
publish = false

[dependencies]
anyhow = "*"
bao-tree = "*"
bytes = "*"
clap = { version = "*", features = ["derive"] }
futures = "*"
postcard = { version = "*", features = ["alloc"] }
serde = { version = "*", features = ["derive"] }
tokio = { version = "*", features = ["full"] }
tokio-util = "*"
tracing = "*"
tracing-subscriber = { version = "*", features = ["env-filter"] }

[dev-dependencies]
byteorder = "*"
hex = "*"
unsigned-varint = "*"
