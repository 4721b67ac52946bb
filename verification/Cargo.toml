[package]
name = "nsh"
version = "0.1.0"
edition = "2021"
publish = false

[dependencies]
cyphernet = { version = "=0.5.4", features = ["ed25519", "x25519", "p2p-ed25519", "multibase", "pem", "sha2", "dns", "noise_sha2", "noise_x25519"] }
netservices = "=0.8.1"
io-reactor = "=0.5.2"
clap = { version = "=4.6.7", features = ["derive"] }
shellexpand = "=3.1.2"
