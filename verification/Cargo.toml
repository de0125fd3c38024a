[package]
name = "owl_wave"
version = "0.1.0"
edition = "2021"
publish = false

[dependencies]
anyhow = "*"
byte-unit = "4"
midir = "*"
owl_midi = "*"
wavetable = "*"
wmidi = "*"
