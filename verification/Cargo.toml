[package]
name = "reclip"
version = "0.1.0"
edition = "2021"
publish = false

[dependencies]
chrono = "0.4"
sha2 = "0.10"
hex = "0.4"
hound = "3.5"
symphonia = "0.5"
rubato = "*"
