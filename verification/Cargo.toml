[package]
name = "vidimg"
version = "0.1.0"
edition = "2021"
publish = false

[dependencies]
glob = "=0.3.4"
image = "=0.25.10"
libc = "=0.2.191"
ncurses = "=5.88.0"
