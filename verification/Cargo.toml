[package]
name = "rustier_chess"
version = "0.1.0"
edition = "2021"
publish = false

[dependencies]
bincode = "1.3"
rand = "0.9"
rayon = "1"
serde = "1"
serde_derive = "1"
