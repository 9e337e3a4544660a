[package]
name = "jarvis"
version = "0.1.0"
edition = "2021"
publish = false

[dependencies]
serde_json = "*"
anyhow = "*"
tokio = { version = "*", features = ["full"] }
ollama-rs = "*"
cpal = "*"
vosk = "*"
tts = "*"
dirs = "*"
dotenvy = "*"
env_logger = "*"
log = "*"
wait-timeout = "*"
