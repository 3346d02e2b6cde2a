[package]
name = "water_sort"
version = "0.1.0"
edition = "2021"
publish = false

[dependencies]
rand = "0.8"
regex = "1"
dialoguer = "0.10"
