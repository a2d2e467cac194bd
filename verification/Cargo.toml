[package]
name = "futuresdr"
version = "0.1.0"
edition = "2021"
publish = false

[dependencies]
async-io = "*"
async-task = "4"
futures = "0.3"
num-complex = "0.4"
slab = "0.4"
wgpu = "*"
