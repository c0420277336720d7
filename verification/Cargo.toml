[package]
name = "jmap_remote"
version = "0.1.0"
edition = "2021"
publish = false

[dependencies]
base64 = "=0.13.1"
indicatif = "0.17"
itertools = "=0.10.5"
log = "0.4"
serde = { version = "1", features = ["derive"] }
serde_json = "1"
trust-dns-resolver = "0.21"
ureq = { version = "2", features = ["json"] }
uritemplate = "=0.1.2"
