[package]
name = "opendeck_ampgd6"
version = "0.2.0"
edition = "2021"
publish = false

[dependencies]
data-url = "=0.3.2"
futures-lite = "=2.6.1"
image = { version = "=0.25.10", default-features = false, features = ["bmp", "jpeg"] }
log = "=0.4.35"
mirajazz = "=0.16.3"
openaction = "=1.1.5"
simplelog = "=0.12.2"
tokio = { version = "=1.54.1", features = ["full"] }
tokio-util = { version = "=0.7.20", features = ["rt"] }
