[package]
name = "pixie"
version = "0.1.0"
edition = "2021"
publish = false

[dependencies]
blake3 = "*"
lz4_flex = "*"
miniz_oxide = "*"
uefi = "*"
gpt_disk_io = "*"
smoltcp = "*"
log = "*"
