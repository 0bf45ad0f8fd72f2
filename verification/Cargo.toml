[package]
name = "trust"
version = "0.1.0"
edition = "2021"
publish = false

[dependencies]
etherparse = "=0.9.0"
tun-tap = "=0.1.4"
nix = "=0.14.1"
