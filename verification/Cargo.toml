[package]
name = "swaymsg_workspace"
version = "0.1.0"
edition = "2021"
publish = false

[dependencies]
regex = "1"
swayipc = "3"
