[package]
name = "local_ai"
version = "0.1.0"
edition = "2021"
publish = false

[dependencies]
anyhow = "1"
chrono = "0.4"
diesel = { version = "2.2", features = ["sqlite"] }
dirs = "5"
dunce = "1"
hex = "0.4"
libc = "0.2"
log = "0.4"
nix = "0.26"
reqwest = { version = "0.12", default-features = false, features = ["json"] }
serde = { version = "1", features = ["derive"] }
serde_json = "1"
serde_yaml = "0.9"
sha2 = "0.10"
thiserror = "1"
unicode-normalization-alignments = "*"
url = "2"
uuid = { version = "1", features = ["v4"] }
walkdir = "2"

[dev-dependencies]
tempfile = "3"
