[package]
name = "hagrid_fs"
version = "0.1.0"
edition = "2021"
publish = false

[dependencies]
url = "1.7"
pathdiff = "0.2"
tempfile = "3"
walkdir = "2"
