[package]
name = "defmt_kernel"
version = "0.1.0"
edition = "2021"
publish = false

[dependencies]
anyhow = "1"
defmt = "=0.3.10"
defmt-parser = "0.4"
x86_64 = { version = "0.15", default-features = false, features = ["instructions"] }
