[package]
name = "xdp_top"
version = "0.2.3"
edition = "2021"
publish = false

[dependencies]
anyhow = "1"
crossterm = "0.28"
ratatui = "0.28"
regex = "1"
sysinfo = "0.30"
