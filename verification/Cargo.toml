[package]
name = "musicdb"
version = "0.1.0"
edition = "2021"
publish = false

[dependencies]
regex = "1"
toml = "*"
clap = { version = "4", features = ["derive"] }
directories = "*"
id3 = "*"
mp3-duration = "*"
speedy2d = { version = "*", default-features = false }
