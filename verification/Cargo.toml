[package]
name = "buildpack_actions"
version = "0.1.0"
edition = "2021"
publish = false

[dependencies]
indexmap = "=2.14.2"
markdown = "=1.0.0"
fastrand = "=2.5.0"
chrono = "=0.4.45"
clap = { version = "=4.6.7", features = ["derive"] }
serde = { version = "=1.0.229", features = ["derive"] }
serde_json = "=1.0.151"
thiserror = "=2.0.21"
toml = "=0.9.8"
toml_edit = "=0.23.9"
libcnb-data = "=0.30.4"
libcnb-common = "=0.30.4"
libcnb-package = "=0.30.4"
ignore = "=0.4.33"
