[package]
name = "wayland_seat"
version = "0.1.0"
edition = "2021"
publish = false

[dependencies]
wayland-server = "0.31"
wayland-protocols = { version = "0.32", features = ["server", "unstable"] }
thiserror = "2"
tracing = "0.1"
