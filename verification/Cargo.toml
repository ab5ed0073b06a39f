[package]
name = "qust"
version = "0.1.0"
edition = "2021"
publish = false

[dependencies]
lz4_flex = "0.11"
serde = { version = "1", features = ["derive"] }
serde_json = "1"
dirs = "5"
log = "0.4"
env_logger = "0.11"
glib = "0.18"
gdk = "0.18"
gtk = "0.18"
webkit2gtk = "2.0"
javascriptcore-rs = "1.1"
