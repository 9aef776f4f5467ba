[package]
name = "loadorder"
version = "0.1.0"
edition = "2021"
publish = false

[dependencies]
encoding = "0.2.33"
esplugin = "*"
filetime = "0.2"
rayon = "1"
regex = "1"
unicase = "2"
