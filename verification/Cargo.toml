[package]
name = "wlr-utils"
version = "0.1.0"
edition = "2021"
publish = false

[dependencies]
serde_json = "=1.0.154"
egui = { version = "=0.37.0", default-features = false }
xkeysym = "=0.2.1"
clap = { version = "=4.6.7", features = ["derive"] }
edgefirst-egl = { version = "=0.38.2", features = ["dynamic"] }
glow = "=0.18.0"
libloading = "=0.9.0"
wayland-client = { version = "=0.31.15", features = ["system", "dlopen"] }
