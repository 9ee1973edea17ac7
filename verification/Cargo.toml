[package]
name = "moonshine"
version = "0.1.0"
edition = "2021"
publish = false

[dependencies]
async-shutdown = "0.2"
clap = { version = "4", features = ["derive"] }
futures-util = "0.3"
hdrhistogram = { version = "7", default-features = false }
libc = "0.2"
serde = { version = "1", features = ["derive"] }
serde_json = "1"
shlex = "1"
smithay = { version = "*", default-features = false, features = ["wayland_frontend"] }
tempfile = "3"
tokio = { version = "1", features = ["full"] }
tracing = "0.1"
tracing-subscriber = { version = "0.3", features = ["env-filter"] }
uuid = { version = "1", features = ["v4"] }
which = "*"
zbus = { version = "5", default-features = false, features = ["tokio"] }
zvariant = "5"
