[package]
name = "scanlink"
version = "0.1.0"
edition = "2021"
publish = false

[dependencies]
aes-gcm = "0.10"
base64 = "0.22"
rand = "0.8"
chrono = "0.4"
serde = { version = "1", features = ["derive"] }
serde_json = "1"
tokio = { version = "1", features = ["rt-multi-thread", "macros", "sync", "time"] }
warp = "0.3"
futures-util = "0.3"
directories = "5"
local-ip-address = "0.6"
qrcode = "0.14"
image = { version = "0.25", default-features = false, features = ["png"] }
arboard = "3"
enigo = "0.2"
hostname = "0.4"
mdns-sd = "0.11"
log = "0.4"
