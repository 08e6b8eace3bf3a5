[package]
name = "kmemsnoop"
version = "0.1.0"
edition = "2021"
publish = false

[dependencies]
anyhow = "1"
blazesym = "0.2"
clap = { version = "4", features = ["derive"] }
ctrlc = "3"
libbpf-rs = "0.24"
libc = "0.2"
perf-event-open-sys = "5"
plain = "0.2"
