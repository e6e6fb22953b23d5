[package]
name = "initium"
version = "0.1.0"
edition = "2021"
publish = false

[dependencies]
x86_64 = { version = "=0.14.13", default-features = false, features = ["instructions"] }
xmas-elf = "=0.8.0"
usize_conversions = "=0.1.0"
anyhow = "=1.0.104"
gpt = "=3.1.0"
tempfile = "=3.27.0"
ovmf-prebuilt = "=0.1.0-alpha.1"
uefi = "=0.26.0"
fatfs = "0.3"
