[package]
name = "stardust_xr_wayland_service"
version = "0.1.0"
edition = "2021"
publish = false

[dependencies]
dashmap = "=6.2.1"
directories = "=6.0.0"
drm-fourcc = "=2.2.0"
futures-sink = "=0.3.34"
memfd = "=0.6.6"
mint = "=0.5.9"
parking_lot = "=0.12.5"
pin-project-lite = "=0.2.17"
rand = "=0.9.5"
rustc-hash = "=2.1.3"
rustix = { version = "=1.1.6", features = ["fs", "time"] }
stardust-xr-fusion = "=0.52.0"
stardust-xr-molecules = "=0.52.0"
stardust-xr-protocol = "=0.52.1"
thiserror = "=2.0.21"
timeline_syncobj = "=0.2.1"
tokio = { version = "=1.54.1", features = ["full"] }
tokio-stream = "=0.1.19"
tracing = "=0.1.44"
tracing-subscriber = { version = "=0.3.23", features = ["env-filter"] }
vulkano = "=0.35.2"
waynest = "=0.2.0-rc1"
waynest-protocols = { version = "=0.2.0-rc1", features = ["mesa", "server", "stable"] }
waynest-server = "=0.2.0-rc1"
