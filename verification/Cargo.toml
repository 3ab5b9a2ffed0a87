[package]
name = "nickel_jl"
version = "0.1.0"
edition = "2021"
publish = false

[dependencies]
nickel-lang-core = "=0.19.0"
malachite = "=0.9.2"
colorchoice = "=1.0.5"
