[package]
name = "osz2"
version = "0.1.0"
edition = "2021"
publish = false

[dependencies]
bytemuck = "1"
byteorder = "1"
md5 = "*"
mint = "*"
num_enum = "*"
serde = { version = "1", features = ["derive"] }
thiserror = "*"
xtea = "*"
