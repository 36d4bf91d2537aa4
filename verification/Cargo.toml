[package]
name = "netprobe"
version = "0.1.0"
edition = "2021"
publish = false

[dependencies]
etherparse = "0.10"
dns-parser = "0.8"
pcap = "*"
confy = "*"
core_affinity = "*"
serde = "*"
serde_derive = "*"
