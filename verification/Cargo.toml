[package]
name = "netifs"
version = "0.1.0"
edition = "2021"
publish = false

[dependencies]
ipnetwork = "*"
libc = "*"
nix = { version = "*", features = ["net", "socket"] }
winapi = { version = "*", features = ["ifdef", "ipifcons", "ntdef", "winerror", "ws2def", "ws2ipdef", "iphlpapi", "iptypes"] }
