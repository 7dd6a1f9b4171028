[package]
name = "asciify"
version = "0.1.0"
edition = "2021"
publish = false

[dependencies]
clap = { version = "4", features = ["derive"] }
image = { version = "0.24", default-features = false, features = ["gif", "jpeg", "png"] }
imageproc = { version = "0.23", default-features = false }
rgb2ansi256 = "0.1"
rusttype = "0.9"
termcolor = "1"
