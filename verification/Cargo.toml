[package]
name = "hftlog"
version = "0.1.0"
edition = "2021"
publish = false

[dependencies]
bytemuck = "*"
core_affinity = "*"
crossbeam-channel = "*"
crossbeam-utils = "*"
libc = "*"
nexus-queue = "*"
