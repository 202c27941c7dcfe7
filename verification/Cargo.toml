[package]
name = "music_player"
version = "0.1.0"
edition = "2021"
publish = false

[dependencies]
bitvec = "1"
rand = "0.8"
serde = "1"
serde_derive = "1"
serde_json = "1"
dirs = "*"
fslock = "*"
notify-rust = "*"
rdev = "*"
playback-rs = "*"
spin_sleep = "*"
id3 = "*"
