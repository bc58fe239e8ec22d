[package]
name = "plinth_plugin"
version = "0.1.0"
edition = "2021"
publish = false

[dependencies]
clap-sys = "*"
vst3 = "*"
widestring = "*"
parking_lot = "*"
midir = "*"
