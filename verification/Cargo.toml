[package]
name = "vagga_core"
version = "0.1.0"
edition = "2021"
publish = false

[dependencies]
nix = { version = "=0.31.3", features = ["signal", "process", "sched"] }
time = "=0.3.55"
