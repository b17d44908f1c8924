[package]
name = "adamantium"
version = "0.1.0"
edition = "2021"
publish = false

[dependencies]
rustc_apfloat = "*"
toml = "*"
wasmi = "*"
wasmi_wasi = "*"
