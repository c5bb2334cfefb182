[package]
name = "recon"
version = "0.1.0"
edition = "2021"
publish = false

[dependencies]
cidr-utils = "0.5"
libxml = "0.3"
mio = { version = "0.8", features = ["os-poll", "net", "os-ext"] }
serde = { version = "1", features = ["derive"] }
serde_json = "1"
