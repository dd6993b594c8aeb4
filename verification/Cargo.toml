[package]
name = "ouou_dictation"
version = "0.1.0"
edition = "2021"
publish = false

[dependencies]
anyhow = "=1.0.104"
clap = { version = "=4.6.7", features = ["derive"] }
console = "=0.15.11"
indicatif = "=0.17.11"
language-tags = "=0.3.2"
lingua = { version = "=1.8.0", default-features = false, features = ["english", "japanese", "chinese"] }
oxilangtag = "=0.1.6"
rand = "=0.8.8"
serde = { version = "=1.0.229", features = ["derive"] }
serde_json = "=1.0.154"
tts = "=0.26.3"
