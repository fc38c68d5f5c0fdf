[package]
name = "repo_debug"
version = "1.2.1"
edition = "2021"
publish = false

[dependencies]
anyhow = "1"
chardet = "0.2"
clap = { version = "4", features = ["derive"] }
clap_complete = "4"
colored = "*"
dialoguer = "*"
encoding_rs = "0.8"
git2 = { version = "*", default-features = false }
log = "0.4"
path-absolutize = "3"
pathdiff = "0.2"
petgraph = "*"
regex = "1"
roxmltree = "*"
serde = { version = "1", features = ["derive"] }
serde_json = "1"
thiserror = "*"
uuid = { version = "1", features = ["v4", "v5"] }
walkdir = "2"
