[package]
name = "g502_linux_control"
version = "0.1.0"
edition = "2021"
publish = false

[dependencies]
anyhow = "1"
evdev = "*"
libc = "0.2"
serde = { version = "1", features = ["derive"] }
toml = { version = "*", features = ["preserve_order"] }
zbus = { version = "5", default-features = false, features = ["async-io", "blocking-api"] }
png = "*"
iced = { version = "0.14", default-features = false, features = ["tiny-skia", "wayland", "x11", "thread-pool"] }
