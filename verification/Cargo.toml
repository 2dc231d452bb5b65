[package]
name = "iai-callgrind-runner"
version = "0.1.0"
edition = "2021"
publish = false

[dependencies]
cfg-if = "1"
colored = "2"
log = "0.4"
