[package]
name = "maratui"
version = "0.1.0"
edition = "2021"
publish = false

[dependencies]
anyhow = "1"
display-interface-spi = "*"
esp-idf-svc = "0.51"
ili9341 = "*"
log = "0.4"
mousefood = "*"
ratatui = "*"
