[package]
name = "copyd"
version = "0.1.0"
edition = "2021"
publish = false

[dependencies]
sha2 = "=0.10.9"
md5 = "=0.7.0"
regex = "=1.13.1"
uuid = { version = "=1.27.0", features = ["v4"] }
chrono = "=0.4.45"
num_cpus = "=1.17.0"
tokio = { version = "=1.53.2", features = ["full"] }
serde = { version = "=1.0.229", features = ["derive"] }
serde_json = "=1.0.151"
anyhow = "=1.0.104"
nix = { version = "=0.31.3", features = ["fs", "user", "zerocopy"] }
libc = "=0.2.190"
io-uring = "=0.7.15"
toml = "*"
