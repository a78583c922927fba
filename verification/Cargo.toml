[package]
name = "songbird"
version = "0.1.0"
edition = "2021"
publish = false

[dependencies]
base64 = "=0.22.1"
shlex = "=1.3.0"
serde = { version = "=1.0.229", features = ["derive"] }
serde_json = { version = "=1.0.154", features = ["preserve_order"] }
thiserror = "=2.0.21"
dirs = "=6.0.0"
reqwest = { version = "=0.12.28", default-features = false }
iced = { version = "=0.14.0", default-features = false, features = ["tiny-skia", "x11", "thread-pool"] }
