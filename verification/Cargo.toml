[package]
name = "rustft8"
version = "0.1.0"
edition = "2021"
publish = false

[dependencies]
libm = "*"
realfft = "*"
rustfft = "*"
wav_io = "*"
