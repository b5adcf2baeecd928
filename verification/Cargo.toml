[package]
name = "kinetrace"
version = "0.1.0"
edition = "2021"
publish = false

[dependencies]
blazesym = "*"
bytes = "1"
clap = { version = "4", features = ["derive"] }
ctrlc = "3"
eyre = "0.6"
humantime = "2"
libbpf-rs = "*"
libc = "0.2"
nix = { version = "0.30", features = ["event", "fs", "mman", "poll", "process", "socket", "time", "uio", "feature"] }
prost = "0.13"
rand = "0.8"
rkyv = "0.8"
serde = { version = "1", features = ["derive"] }
toml = "0.8"
tracing = "0.1"
tracing-subscriber = { version = "0.3", features = ["env-filter"] }
