[package]
name = "rust_vad"
version = "0.1.0"
edition = "2021"
publish = false

[dependencies]
anyhow = "=1.0.104"
hound = "=3.5.1"
jni = "=0.21.1"
lazy_static = "=1.5.1"
ndarray = "=0.16.1"
ort = { version = "=2.0.0-rc.9", default-features = false, features = ["ndarray", "load-dynamic"] }
# ort 2.0.0-rc.9 asks for ort-sys "2.0.0-rc.9", which also admits rc.10, an
# interface ort rc.9 does not compile against; this line holds it at rc.9.
ort-sys = { version = "=2.0.0-rc.9", default-features = false }
serde = { version = "=1.0.229", features = ["derive"] }
serde_json = "=1.0.154"
