[package]
name = "glass"
version = "0.1.0"
edition = "2021"
publish = false

[dependencies]
anyhow = "1"
cosmic-text = "0.14"
image = { version = "0.25", default-features = false, features = ["bmp", "dds", "exr", "ff", "gif", "hdr", "ico", "jpeg", "png", "pnm", "qoi", "tga", "tiff", "webp"] }
smithay-client-toolkit = { version = "0.19", default-features = false }
tiny-skia = "0.11"
tokio = { version = "1", features = ["macros", "rt-multi-thread", "sync"] }
tracing = "0.1"
tracing-subscriber = { version = "0.3", features = ["env-filter"] }
wayland-client = "0.31"
wayland-protocols-plasma = { version = "0.3", features = ["client"] }
zbus = { version = "5", default-features = false, features = ["tokio"] }
