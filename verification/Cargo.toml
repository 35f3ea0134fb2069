[package]
name = "sdr_receiver"
version = "0.1.0"
edition = "2021"
publish = false

[dependencies]
anyhow = "*"
chrono = "*"
clap = { version = "*", features = ["derive"] }
cpal = "*"
crossbeam = "*"
crossterm = "*"
env_logger = "*"
libc = "*"
log = "*"
num-complex = "*"
parking_lot = "*"
rand = "*"
ratatui = "*"
ringbuf = "*"
rtlsdr_mt = "*"
rustfft = "*"
