[package]
name = "battery_alert"
version = "0.1.0"
edition = "2021"
publish = false

[dependencies]
battery = "=0.7.8"
notify-rust = "4"
rodio = "=0.20.1"
sys-info = "=0.9.1"
