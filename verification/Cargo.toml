[package]
name = "ion_monitor"
version = "0.1.0"
edition = "2021"
publish = false

[dependencies]
ratatui = "*"
crossterm = "*"
tachyonfx = "*"
tokio = { version = "*", features = ["rt-multi-thread", "time", "macros"] }
sysinfo = "*"
btleplug = "*"
wifi_scan = "*"
