[package]
name = "lsdp"
version = "0.1.0"
edition = "2021"
publish = false

[dependencies]
default-net = "*"
netaddr2 = "*"
thiserror = "1"
tokio = { version = "1", features = ["net", "sync", "rt", "macros", "time"] }

[dev-dependencies]
hex = "0.4"
