[package]
name = "plyband"
version = "0.1.0"
edition = "2021"
publish = false

[dependencies]
clap = "2.33"
gdal = "0.5"
gdal-sys = "0.2"
