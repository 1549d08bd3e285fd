[package]
name = "bashable_notes"
version = "0.1.0"
edition = "2021"
publish = false

[dependencies]
pulldown-cmark = { version = "0.1", default-features = false }
serde_json = "1"
serde = { version = "1", features = ["derive"] }
ws = "0.9"
notify = "4"
iron = "0.6"
mime_guess = "1"
time = "0.1"
log = "0.4"
env_logger = "*"
