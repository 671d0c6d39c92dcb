[package]
name = "satfire"
version = "0.1.0"
edition = "2021"
publish = false

[dependencies]
chrono = "0.4"
clap = { version = "3", features = ["derive", "env"] }
crossbeam-channel = "0.5"
libc = "0.2"
log = "0.4"
num_cpus = "1"
once_cell = "1"
rusqlite = "*"
rustc-hash = "1"
simple_logger = "*"
static_assertions = "1"
walkdir = "2"
zip = { version = "*", default-features = false, features = ["deflate"] }
