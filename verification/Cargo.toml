[package]
name = "placement_center"
version = "0.1.0"
edition = "2021"
publish = false

[dependencies]
serde = { version = "1", features = ["derive"] }
serde_json = "1"
bincode = "1.3"
prost = "0.11"
raft = { version = "0.7", default-features = false, features = ["prost-codec"] }
rocksdb = "0.22"
log = "0.4"
log4rs = "1"
serde_yaml = "0.9"
thiserror = "1"
tonic = "0.11"
clap = { version = "4", features = ["derive"] }
