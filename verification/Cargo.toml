[package]
name = "kobject-uevent"
version = "0.1.0"
edition = "2021"
publish = false

[dependencies]
compact_str = "0.9"
thiserror = "2"
netlink-sys = { version = "0.8", features = ["tokio_socket"] }
tokio = { version = "1", features = ["rt", "net"] }
