[package]
name = "lost_oppai"
version = "0.1.0"
edition = "2021"
publish = false

[dependencies]
rand = "=0.8.8"
unicode-segmentation = "=1.13.3"
petgraph = "=0.6.5"
strsim = "0.11"
