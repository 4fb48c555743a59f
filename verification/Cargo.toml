[package]
name = "ges_mapreleaser"
version = "0.1.0"
edition = "2021"
publish = false

[dependencies]
bzip2 = "*"
clap = "2.34"
walkdir = "2"

[dev-dependencies]
regex = "1"
