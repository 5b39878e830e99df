[package]
name = "eopkginst"
version = "0.1.0"
edition = "2021"
publish = false

[dependencies]
quick-xml = "*"
sha1 = "0.10"
tar = "0.4"
xz2 = "0.1"
which = "*"
clap = "2.34"
