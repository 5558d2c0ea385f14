[package]
name = "game_of_life"
version = "0.1.0"
edition = "2021"
publish = false

[dependencies]
lru = "0.12"
rand = "0.9"
minifb = "*"
tch = "*"
