[package]
name = "wikidump"
version = "0.1.0"
edition = "2021"
publish = false

[dependencies]
zstd = "0.5"
serde_json = "1"
xml-rs = "0.8"
indicatif = "0.15"
structopt = "0.3"
clap = "2"
flate2 = "1"
