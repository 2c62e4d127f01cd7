[package]
name = "turbo_delete"
version = "0.1.0"
edition = "2021"
publish = false

[dependencies]
indicatif = "*"
jwalk = "*"
owo-colors = "*"
rayon = "*"
rusty_pool = "*"
