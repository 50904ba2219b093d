[package]
name = "jira_session"
version = "0.1.0"
edition = "2021"
publish = false

[dependencies]
base64 = "0.13"
env_logger = "0.6"
failure = "0.1"
log = "0.4"
reqwest = { version = "0.9", default-features = false, features = ["rustls-tls"] }
serde = "1"
serde_derive = "1"
serde_json = "1"
thread-id = "3"
time = "0.1"
url = "1.7"

[dev-dependencies]
regex = "1"
