[package]
name = "rusty_backend"
version = "0.1.0"
edition = "2021"
publish = false

[dependencies]
humantime = "*"
tuirealm = "*"
tui-realm-stdlib = "*"
