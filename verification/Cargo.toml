[package]
name = "tracksim"
version = "0.1.0"
edition = "2021"
publish = false

[dependencies]
rand = "*"
rand_chacha = "*"
rayon = "*"
rusty_neat = "*"
serde = { version = "*", features = ["derive"] }
