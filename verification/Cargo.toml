[package]
name = "bookos_teclas"
version = "0.1.0"
edition = "2021"
publish = false

[dependencies]
evdev = { version = "0.13", features = ["tokio"] }
futures-util = "0.3"
libc = "0.2"
serde = { version = "1", features = ["derive"] }
serde_json = "1"
tokio = { version = "1", features = ["macros", "net", "rt", "sync", "time"] }
xkbcommon = "0.8"
zbus = { version = "5", default-features = false, features = ["tokio"] }
