[package]
name = "yd_esp32_s3_audio_sd"
version = "0.1.0"
edition = "2021"
publish = false

[dependencies]
anyhow = "1"
log = "0.4"
esp-idf-svc = "0.52.1"
