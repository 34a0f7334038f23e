[package]
name = "midi_clock_shifter"
version = "0.1.0"
edition = "2021"
publish = false

[dependencies]
log = "0.4"
crossbeam-channel = "0.5"
arc-swap = "1"
spin_sleep = "1"
serde = { version = "1", features = ["derive"] }
serde_json = "1"
anyhow = "1"
thiserror = "1"
clap = { version = "4", features = ["derive"] }
directories = "5"
libloading = "0.8"
midir = "*"
windows = { version = "*", features = ["Win32_Media", "Win32_System_Threading", "Win32_Foundation"] }
