[package]
name = "noissh"
version = "0.4.1"
edition = "2021"
publish = false

[dependencies]
base64 = "=0.22.1"
daemonize = "=0.5.0"
getrandom = "=0.3.4"
nix = { version = "=0.30.1", features = ["fs", "ioctl", "poll", "process", "signal", "term", "user"] }
pty-process = "=0.5.4"
signal-hook = "=0.3.18"
snow = "=0.10.0"
terminal_size = "=0.4.4"
thiserror = "=2.0.21"
unicode-width = "0.2"
vte = "=0.15.0"
