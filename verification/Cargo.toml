[package]
name = "img2raw"
version = "0.1.0"
edition = "2021"
publish = false

[dependencies]
byteorder = "1"
exitfailure = "0.5"
failure = "0.1"
half = "1"
image = "0.22"
rayon = "1"
structopt = "0.3"
