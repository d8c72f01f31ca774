[package]
name = "fpwm"
version = "0.1.0"
edition = "2021"

[dependencies]
x11 = "2"
