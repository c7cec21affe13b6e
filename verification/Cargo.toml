[package]
name = "debcargo"
version = "0.1.0"
edition = "2021"
publish = false

[dependencies]
semver-parser = "=0.9.0"
semver = "=1.0.28"
textwrap = "=0.16.4"
regex = "=1.13.1"
glob = "=0.3.4"
toml = "=1.1.8+spec-1.1.0"
serde = { version = "=1.0.229", features = ["derive"] }
chrono = "=0.4.45"
anyhow = "=1.0.104"
clap = { version = "=4.6.7", features = ["derive"] }
tempfile = "=3.27.0"
walkdir = "=2.5.0"
itertools = "=0.15.0"
flate2 = "1"
tar = "=0.4.46"
filetime = "=0.2.29"
log = "=0.4.35"
env_logger = "=0.11.11"
ansi_term = "=0.12.1"
