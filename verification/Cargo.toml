[package]
name = "water"
version = "0.1.0"
edition = "2021"
publish = false

[dependencies]
alacritty_terminal = "*"
image = { version = "*", default-features = false, features = ["png", "jpeg", "gif", "webp", "bmp"] }
libc = "*"
polling = "*"
serde = { version = "*", features = ["derive"] }
serde_json = "*"
smallvec = "*"
thiserror = "*"
tracing = "*"
uuid = { version = "*", features = ["v4"] }
