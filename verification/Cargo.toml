[package]
name = "menu_driver"
version = "0.1.0"
edition = "2021"
publish = false

[dependencies]
json5 = "0.4"
serde_json = { version = "1", features = ["preserve_order"] }
fork = "0.1"
serde = "1"
