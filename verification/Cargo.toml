[package]
name = "rocket_radio"
version = "0.1.0"
edition = "2021"
publish = false

[dependencies]
bus = "2"
byteorder = "1"
clap = { version = "4", features = ["derive"] }
hackrfone = "0.2"
itertools = "0.13"
num-complex = "0.4"
nusb = "0.1"
ringbuffer = "0.15"
rustfft = "6"
serde = { version = "1", features = ["derive"] }
smol = "2"
