[package]
name = "ports"
version = "0.1.0"
edition = "2021"
publish = false

[dependencies]
ansi_term = "=0.12.1"
anyhow = "=1.0.104"
itertools = "=0.10.5"
netlink-packet-core = "=0.7.0"
netlink-packet-generic = "=0.3.3"
netlink-packet-route = "=0.19.0"
netlink-packet-sock-diag = "=0.4.2"
netlink-packet-wireguard = "=0.2.3"
netlink-sys = "=0.8.8"
procfs = "=0.16.0"
terminal_size = "=0.3.0"
unicode-width = "=0.1.14"
uzers = "=0.11.3"
