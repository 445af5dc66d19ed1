[package]
name = "bt_dualboot"
version = "0.1.0"
edition = "2021"
publish = false

[dependencies]
clap = { version = "*", features = ["derive"] }
inquire = "*"
log = "*"
serde = { version = "*", features = ["derive"] }
serde_ini = "*"
simple_logger = "*"
