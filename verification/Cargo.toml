[package]
name = "bronze_gc"
version = "0.1.0"
edition = "2021"
publish = false

[dependencies]
rand = "=0.8.8"
rand_pcg = "=0.3.1"
synstructure = "=0.12.6"
quote = "=1.0.47"
proc-macro2 = "=1.0.107"
winit = "0.24"
pixels = "0.2"
raw-window-handle = "0.3"
objc = "0.2"
