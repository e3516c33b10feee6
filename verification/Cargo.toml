[package]
name = "softraster"
version = "0.1.0"
edition = "2021"
publish = false

[dependencies]
crossterm = "*"
image = "*"
rand = "*"
rayon = "*"
serde = { version = "*", features = ["derive"] }
vector_2d_3d = "*"
