[package]
name = "waveview"
version = "0.1.0"
edition = "2021"
publish = false

[dependencies]
anyhow = "1"
hound = "3"
image = "0.24"
notify-debouncer-mini = "0.2"
softbuffer = "0.2"
winit = "0.28"
