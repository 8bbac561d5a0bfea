[package]
name = "pinetree"
version = "0.1.0"
edition = "2021"
publish = false

[dependencies]
rand = "0.8"
egui = "0.29"
rodio = { version = "0.19", default-features = false, features = ["mp3"] }
id3 = "1"
image = { version = "0.25", default-features = false, features = ["ico"] }
mp3-duration = "0.1"
