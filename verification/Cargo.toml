[package]
name = "dir_usage"
version = "0.1.0"
edition = "2021"
publish = false

[dependencies]
term_grid = "0.2"
walkdir = "2"
