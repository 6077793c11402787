[package]
name = "ash_slug"
version = "0.1.0"
edition = "2021"
publish = false

[dependencies]
harfrust = "=0.8.4"
ttf-parser = "=0.25.1"
ash = "=0.38.0"
