[package]
name = "keyspace_search"
version = "0.1.0"
edition = "2021"
publish = false

[dependencies]
bcrypt = "*"
bytemuck = "*"
hex = "*"
md5 = "*"
pollster = "*"
rayon = "*"
sha1 = "*"
wgpu = "*"
