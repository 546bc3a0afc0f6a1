[package]
name = "photon_walk"
version = "0.1.0"
edition = "2021"
publish = false

[dependencies]
rand = "0.8"
three-d = { version = "0.15", features = ["egui-gui"] }
three-d-asset = { version = "0.5", features = ["obj"] }
tokio = { version = "1", features = ["macros", "rt-multi-thread"] }
