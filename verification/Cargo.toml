[package]
name = "renamer"
version = "0.1.0"
edition = "2021"
publish = false

[dependencies]
interner = "=0.2.1"
