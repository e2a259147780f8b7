[package]
name = "dystopia_core"
version = "0.1.0"
edition = "2021"
publish = false

[dependencies]
bevy = { version = "0.14", default-features = false }
bincode = { version = "2.0.0-rc.3", features = ["derive"] }
bitflags = "2"
dotenvy = "0.15"
indexmap = "2"
num_enum = "0.7"
rand = "0.8"
rand_distr = "0.4"
serde = { version = "1", features = ["derive"] }
serde_json = "1"
thiserror = "1"
