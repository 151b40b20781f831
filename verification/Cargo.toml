[package]
name = "prmt"
version = "0.1.0"
edition = "2021"
publish = false

[dependencies]
toml = "*"
lexopt = "*"
libc = "*"
rayon = "*"
dirs = "*"
gix = "*"

[dev-dependencies]
regex = "*"
