[package]
name = "vop_codec"
version = "0.1.0"
edition = "2021"
publish = false

[dependencies]
byteorder = "1"
miniz_oxide = "0.7"
clap = { version = "4", features = ["derive"] }
hound = "3"
rubato = "0.14"
speex-safe = "*"
symphonia = "0.5"
