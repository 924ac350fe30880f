[package]
name = "mapping2barcode"
version = "0.1.0"
edition = "2021"
publish = false

[dependencies]
petgraph = "*"
itertools = "*"
csv = "*"
bio = "*"
niffler = "*"
structopt = "*"
flate2 = "*"
bzip2 = "*"
xz2 = "*"
