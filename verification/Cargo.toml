[package]
name = "abeye"
version = "0.1.0"
edition = "2021"
publish = false

[dependencies]
camino = "1"
heck = "*"
indent_write = "*"
pluralizer = "*"
openapiv3 = "1"
serde_json = "1"
reqwest = { version = "*", features = ["blocking", "json"] }
clap = { version = "4", features = ["derive"] }
color-eyre = "*"
tracing = "0.1"
tracing-error = "*"
tracing-subscriber = { version = "0.3", features = ["env-filter"] }
