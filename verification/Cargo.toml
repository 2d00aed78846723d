[package]
name = "frlg_render"
version = "0.1.0"
edition = "2021"
publish = false

[dependencies]
byteorder = "1"
clap = { version = "4", features = ["derive"] }
convert_case = "0.6"
env_logger = "0.10"
image = { version = "0.24", default-features = false, features = ["png"] }
log = "0.4"
png = "0.17"
serde = { version = "1", features = ["derive"] }
serde_json = "1"
