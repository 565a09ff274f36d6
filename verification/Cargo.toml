[package]
name = "phantom_screen_server"
version = "0.1.0"
edition = "2021"
publish = false

[dependencies]
anyhow = "=1.0.104"
async-trait = "=0.1.92"
bytes = "=1.12.1"
clap = { version = "=4.6.7", features = ["derive", "env"] }
gstreamer = "=0.23.7"
gstreamer-app = "=0.23.5"
gstreamer-video = "=0.23.6"
http-body-util = "=0.1.5"
hyper = { version = "=1.12.0", features = ["client", "http1", "server"] }
hyper-util = { version = "=0.1.21", features = ["server-auto", "tokio"] }
jsonwebtoken = "=9.3.1"
serde = { version = "=1.0.229", features = ["derive"] }
serde_json = { version = "=1.0.154", features = ["raw_value"] }
tokio = { version = "=1.54.1", features = ["full"] }
tracing = "=0.1.44"
tracing-subscriber = { version = "=0.3.23", features = ["env-filter"] }
wtransport = "=0.6.1"
x11rb = { version = "=0.13.2", features = ["composite", "xtest"] }
