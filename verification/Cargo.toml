[package]
name = "musix"
version = "0.1.0"
edition = "2021"
publish = false

[dependencies]
cpal = "0.13"
druid = "0.6"
log = "0.4"
ringbuf = "0.2"
serde = { version = "1", features = ["derive"] }
simple_logger = "1.6"
