[package]
name = "aquatic_http"
version = "0.1.0"
edition = "2021"
publish = false

[dependencies]
anyhow = "=1.0.104"
aquatic_common = "=0.9.0"
aquatic_http_protocol = "=0.9.0"
arc-swap = "=1.9.3"
futures = "=0.3.34"
futures-lite = "=2.6.1"
futures-rustls = "=0.26.0"
glommio = "=0.9.0"
httparse = "=1.10.1"
itoa = "=1.0.18"
log = "=0.4.35"
metrics = "=0.24.6"
slotmap = "=1.1.1"
socket2 = { version = "=0.6.5", features = ["all"] }
