[package]
name = "linked_stack"
version = "0.1.0"
edition = "2021"
publish = false

[dependencies]
env_logger = "*"
mdns-sd = "*"
