[package]
name = "usbfs_endpoint"
version = "0.1.0"
edition = "2021"
publish = false

[dependencies]
cortex-m = "=0.7.10"
lpc55-pac = "=0.5.0"
usb-device = "=0.2.9"
