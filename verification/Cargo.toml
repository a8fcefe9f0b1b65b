[package]
name = "grant_ring"
version = "0.1.0"
edition = "2021"
publish = false

[dependencies]
bbqueue = "0.4"
criterion = "0.3"
crossbeam = "0.7"
crossbeam-utils = "0.7"
