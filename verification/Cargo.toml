[package]
name = "shsh"
version = "0.1.0"
edition = "2021"
publish = false

[dependencies]
regex = "1"
glob = "0.3"
crossterm = "0.28"
ctrlc = "3"
rev_lines = "0.3"
