[package]
name = "cysprite"
version = "0.1.0"
edition = "2021"
publish = false

[dependencies]
png = "=0.17.16"
ron = "=0.8.1"
serde = { version = "=1.0.229", features = ["derive"] }
derivative = "=2.2.0"
chrono = "=0.4.45"
macroquad = "=0.4.16"
egui = "=0.31.1"
egui-macroquad = "=0.17.3"
discord-rpc-client = "=0.4.0"
