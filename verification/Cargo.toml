[package]
name = "autocommit"
version = "0.1.0"
edition = "2021"
publish = false

[dependencies]
time = "=0.1.45"
git2 = { version = "=0.13.25", default-features = false }
notify = "=4.0.18"
fs_extra = "=1.0.0"
serde = "=1.0.229"
serde_derive = "=1.0.229"
serde_json = "=1.0.154"
log = "=0.3.9"
env_logger = "=0.4.3"
