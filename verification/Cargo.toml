[package]
name = "adi_gpu_base"
version = "0.1.0"
edition = "2021"
publish = false

[dependencies]
ami = "=0.9.2"
awi = "=0.8.0"
