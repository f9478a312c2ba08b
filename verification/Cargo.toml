[package]
name = "ashell"
version = "0.1.0"
edition = "2021"
publish = false

[dependencies]
anyhow = "=1.0.104"
argon2 = "=0.5.3"
async-trait = "=0.1.92"
base64 = "=0.22.1"
chacha20poly1305 = "=0.10.1"
directories = "=6.0.0"
portable-pty = "=0.9.0"
rand = "=0.8.8"
russh = "=0.49.2"
serde = { version = "=1.0.229", features = ["derive"] }
serde_json = "=1.0.154"
sysinfo = "=0.37.2"
tempfile = "=3.27.0"
tokio = { version = "=1.54.1", features = ["rt-multi-thread", "net", "io-util", "time", "sync", "macros"] }
tokio-socks = "=0.5.3"
tracing = "=0.1.44"
uuid = { version = "=1.29.0", features = ["v4"] }
