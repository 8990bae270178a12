[package]
name = "fsk_modem"
version = "0.1.0"
edition = "2021"
publish = false

[dependencies]
itertools = "0.13"
lazy_static = "1"
portaudio = "0.7"
rand = "0.8"
rustfft = "6"
