[package]
name = "ui"
version = "0.1.0"
edition = "2021"
publish = false

[dependencies]
iced = { version = "=0.14.0", default-features = false, features = ["tiny-skia", "x11", "tokio", "image", "advanced"] }
tokio = { version = "=1.54.1", features = ["rt", "time"] }
bytes = "=1.12.1"
image = { version = "=0.25.10", default-features = false, features = ["png", "jpeg", "webp"] }
lucide-icons = "*"
