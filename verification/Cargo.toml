[package]
name = "ooze"
version = "0.1.0"
edition = "2021"
publish = false

[dependencies]
rand = "0.6"
toml = "0.5"
glium = "0.23"
image = "0.21"
glob = "0.2"
rusttype = "0.7"
