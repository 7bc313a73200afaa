[package]
name = "abus"
version = "0.1.0"
edition = "2021"
publish = false

[dependencies]
bytes = "1"
getrandom = "0.3"
itoa = "1"
tokio = { version = "1", features = ["full"] }
tokio-util = { version = "0.7", features = ["codec"] }
tokio-stream = "0.1"
futures-util = { version = "0.3", features = ["sink"] }
rustix = { version = "1", features = ["process"] }
pin-project-lite = "0.2"
anchovy = "*"
anyhow = "1"
sap = "*"
tracing = "0.1"
tracing-subscriber = { version = "0.3", features = ["fmt"] }
