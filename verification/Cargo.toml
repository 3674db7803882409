[package]
name = "fl"
version = "0.1.0"
edition = "2021"
publish = false

[dependencies]
anyhow = "1"
async-channel = "=2.5.0"
bytes = "1"
clap = { version = "=4.6.7", features = ["derive"] }
env_logger = "=0.11.11"
futures-lite = "=2.6.1"
hex = "=0.4.3"
hidapi = { version = "=2.6.7", default-features = false, features = ["linux-native-basic-udev"] }
log = "0.4"
nusb = "=0.2.9"
p256 = "=0.13.2"
pcsc = "=2.9.0"
rusb = "=0.9.4"
tokio = { version = "1", features = ["full"] }
x509-cert = "=0.2.5"
