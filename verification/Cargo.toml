[package]
name = "crc_fast"
version = "0.1.0"
edition = "2021"
publish = false

[dependencies]
clap = "2"
crc32fast = "1"
env_logger = "0.4"
log = "0.3"
sha2 = "0.10"
time = "0.1"
walkdir = "2"
