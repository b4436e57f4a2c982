[package]
name = "patpubrender"
version = "0.1.1"
edition = "2021"
publish = false

[dependencies]
xmloxide = "*"
zstd = "*"
zip = "*"
rayon = "*"
