[package]
name = "pexrc"
version = "0.1.0"
edition = "2021"
publish = false

[dependencies]
anyhow = "=1.0.104"
base64 = "=0.23.1"
clap = { version = "=4.6.7", features = ["derive"] }
digest = "=0.11.3"
hex = "=0.4.3"
indexmap = "=2.14.2"
pep440_rs = "=0.7.3"
pep508_rs = "=0.9.2"
semver = "=1.0.28"
serde = { version = "=1.0.229", features = ["derive"] }
serde_json = "=1.0.154"
sha2 = "=0.11.1"
target-lexicon = "=0.13.5"
url = "=2.5.8"
