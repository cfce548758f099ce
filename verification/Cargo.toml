[package]
name = "solana_net_core"
version = "0.1.0"
edition = "2021"
publish = false

[dependencies]
anyhow = "1"
core_affinity = "*"
libc = "0.2"
ringbuf = "0.4"
tracing = "0.1"
xsk-rs = "*"
