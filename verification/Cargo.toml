[package]
name = "bluetooth"
version = "0.1.0"
edition = "2021"
publish = false

[dependencies]
anyhow = "1"
bluer = { version = "=0.17.4", features = ["bluetoothd"] }
dbus = { version = "=0.9.12", features = ["vendored"] }
futures = "0.3"
iced_futures = { version = "=0.13.2", features = ["tokio"] }
rand = "=0.9.5"
tokio = { version = "=1.54.1", features = ["rt", "sync", "time", "macros", "process"] }
tracing = "0.1"
