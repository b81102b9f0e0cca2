[package]
name = "care"
version = "0.1.0"
edition = "2021"
publish = false

[dependencies]
anyhow = "*"
cap-std = "*"
clap = { version = "=4.6.7", features = ["derive"] }
env_logger = "*"
fn-error-context = "*"
git2 = "=0.21.0"
itertools = "*"
log = "*"
mlua = { version = "=0.12.2", features = ["error-send", "lua53", "vendored"] }
path-slash = "*"
remotefs = "=1.0.1"
remotefs-ssh = "=1.0.0"
serde = { version = "*", features = ["derive"] }
tempfile = "*"
thiserror = "*"
toml = "=1.1.7"
unicase = "=2.10.0"
url = "*"
urlencoding = "=2.1.3"
xml-rs = "=0.8.29"
yaserde = "=0.12.0"
yaserde_derive = "=0.12.0"
