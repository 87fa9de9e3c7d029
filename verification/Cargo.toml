[package]
name = "dumbleodor"
version = "0.1.0"
edition = "2021"
publish = false

[dependencies]
xmas-elf = "=0.8.0"
rand = "=0.7.3"
libc = "=0.2.191"
zerocopy = "=0.8.63"
