[package]
name = "glia"
version = "0.1.0"
edition = "2021"
publish = false

[dependencies]
base64 = "=0.21.7"
bincode = "=2.0.1"
bytemuck = "=1.25.2"
chacha20poly1305 = "=0.10.1"
chrono = "=0.4.45"
config = "=0.14.1"
image = { version = "=0.25.10", default-features = false, features = ["png"] }
mio = { version = "=1.2.4", features = ["net", "os-poll"] }
nalgebra = "=0.33.3"
p256 = { version = "=0.13.2", features = ["ecdh"] }
rand = "=0.8.8"
raw-window-handle = "=0.6.2"
serde = { version = "=1.0.229", features = ["derive"] }
sha2 = "=0.10.9"
tap = "=1.0.1"
thiserror = "=1.0.69"
tokio = { version = "=1.54.1", features = ["full"] }
tracing = "=0.1.44"
tracing-subscriber = "=0.3.23"
vulkano = "=0.35.2"
winit = "=0.30.13"
