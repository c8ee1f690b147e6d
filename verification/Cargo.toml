[package]
name = "lan_mouse"
version = "0.1.0"
edition = "2021"
publish = false

[dependencies]
thiserror = "=2.0.21"
serde_json = "=1.0.154"
keycode = "*"
