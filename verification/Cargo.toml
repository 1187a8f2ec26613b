[package]
name = "trackstats"
version = "0.1.0"
edition = "2021"
publish = false

[dependencies]
anyhow = "1"
argh = "0.1"
atty = "0.2"
geo = "*"
gpx = "*"
time = "0.3"
