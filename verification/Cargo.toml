[package]
name = "logicsim3"
version = "0.1.0"
edition = "2021"
publish = false

[dependencies]
bnum = "=0.13.0"
