[package]
name = "inno"
version = "0.1.0"
edition = "2021"
publish = false

[dependencies]
anyhow = "*"
cairo-rs = "*"
dirs = "*"
futures = "*"
libc = "*"
notify = "*"
rodio = "*"
serde = { version = "*", features = ["derive"] }
smithay-client-toolkit = "*"
thiserror = "*"
tokio = { version = "*", features = ["rt", "macros", "time", "sync", "net"] }
toml = "*"
wayland-client = "*"
zbus = { version = "*", default-features = false, features = ["tokio"] }
