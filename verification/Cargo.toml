[package]
name = "prickly"
version = "0.1.0"
edition = "2021"
publish = false

[dependencies]
prc-rs = "*"
regex = "*"
tui = "*"
crossterm = "*"
structopt = "*"
tui-components = "*"
