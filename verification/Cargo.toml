[package]
name = "ddtrace"
version = "0.1.0"
edition = "2021"
publish = false

[dependencies]
rand = "0.8"
zookeeper = "*"
log = "*"
chan = "*"
chan-signal = "*"
libc = "*"
kafka = { version = "*", default-features = false }
