[package]
name = "wifi_motion"
version = "0.1.0"
edition = "2021"
publish = false

[dependencies]
heapless = "=0.8.0"
serde = { version = "=1.0.229", features = ["derive"] }
serde_json = "=1.0.154"
serialport = { version = "=4.10.1", default-features = false }
ratatui = "=0.30.2"
crossterm = "=0.29.0"
color-eyre = "=0.6.5"
esp-hal = "=1.1.2"
esp-radio = "=0.18.0"
esp-rtos = "=0.3.0"
esp-alloc = "=0.11.0"
esp-bootloader-esp-idf = "=0.6.0"
