[package]
name = "willamette"
version = "0.13.0"
edition = "2021"
publish = false

[dependencies]
anyhow = "1"
byteorder = "1"
clap = { version = "4", features = ["derive"] }
crossterm = "0.28"
half = "2"
memmap2 = "0.9"
ratatui = "0.29"
rayon = "1"
sysinfo = "0.33"
thiserror = "1"
