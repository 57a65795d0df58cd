[package]
name = "stormblock"
version = "0.1.0"
edition = "2021"
publish = false

[dependencies]
anyhow = "=1.0.104"
async-trait = "=0.1.92"
bitvec = "=1.1.1"
crc32c = "=0.6.9"
crc32fast = "=1.5.4"
io-uring = "=0.7.15"
libc = "=0.2.191"
nix = { version = "=0.29.0", features = ["fs", "ioctl", "mman", "socket", "uio", "event"] }
rand = "=0.8.8"
serde = { version = "=1.0.229", features = ["derive"] }
serde_json = "=1.0.154"
tokio = { version = "=1.54.1", features = ["full"] }
tracing = "=0.1.44"
uuid = { version = "=1.29.0", features = ["v4", "v5", "serde"] }
