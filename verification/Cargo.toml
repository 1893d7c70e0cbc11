[package]
name = "filesend"
version = "0.1.0"
edition = "2021"
publish = false

[dependencies]
msgpacker = "*"
human_bytes = "*"
druid = { version = "*", features = ["im"] }
tokio = { version = "1", features = ["full"] }
clipboard = "*"
walkdir = "*"
home = "*"
hostname = "*"
local-ip-address = "*"
searchlight = "*"
simple-logging = "*"
log = "*"
tray-item = "*"
