[package]
name = "rsh"
version = "0.1.0"
edition = "2021"
publish = false

[dependencies]
dirs = "2.0.2"
signal-hook = "0.1.15"
termion = "1.5.5"
whoami = "0.8.1"
