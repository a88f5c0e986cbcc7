[package]
name = "foxmd"
version = "0.1.0"
edition = "2021"
publish = false

[dependencies]
regex = "1"
walkdir = "2"
threadpool = "1"
num_cpus = "1"
