[package]
name = "nbt_rs"
version = "0.1.0"
edition = "2021"
publish = false

[dependencies]
bytemuck = "=1.25.2"
thiserror = "=2.0.21"
