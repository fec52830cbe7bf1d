[package]
name = "mouse_configurator"
version = "0.1.0"
edition = "2021"
publish = false

[dependencies]
nix = "0.26"
libc = "0.2"
udev = "0.7"
