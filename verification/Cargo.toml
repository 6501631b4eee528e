[package]
name = "sharself"
version = "0.1.0"
edition = "2021"
publish = false

[dependencies]
sha1 = "0.10"
hex = "0.4"
rand = "0.8"
serde = { version = "1", features = ["derive"] }
serde_json = "1"
thiserror = "1"
tokio = { version = "1.35", features = ["full"] }
socket2 = { version = "0.5", features = ["all"] }
gethostname = "0.4"
walkdir = "2.4"
tracing = "0.1"
tracing-subscriber = { version = "0.3", features = ["env-filter"] }
local-ip-address = "*"
ureq = "2"
mime_guess = "2"
ratatui = "0.26"
crossterm = "0.27"
warp = { version = "0.3", default-features = false, features = ["multipart"] }
reqwest = { version = "0.12", default-features = false, features = ["multipart"] }
