[package]
name = "ogg_sample"
version = "0.1.0"
edition = "2021"
publish = false

[dependencies]
anyhow = "1"
symphonia-core = "0.5"
symphonia-codec-vorbis = "0.5"
