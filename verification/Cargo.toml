[package]
name = "manual_data_creator"
version = "0.1.0"
edition = "2021"
publish = false

[dependencies]
axum = "=0.7.9"
ecolor = { version = "=0.24.1", features = ["serde"] }
egui = { version = "=0.24.1", features = ["serde"] }
egui_plot = { version = "=0.24.2", features = ["serde"] }
log = "=0.4.34"
serde = { version = "=1.0.229", features = ["derive"] }
tokio = { version = "=1.53.2", default-features = false, features = [
    "macros",
    "net",
    "rt-multi-thread",
] }
