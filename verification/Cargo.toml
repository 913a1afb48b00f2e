[package]
name = "rager"
version = "0.1.0"
edition = "2021"
publish = false

[dependencies]
grep = "0.2"
clap = "2"
termion = "1.5"
libc = "0.2"
