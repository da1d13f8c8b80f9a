[package]
name = "calendar_split"
version = "0.1.0"
edition = "2021"
publish = false

[dependencies]
icalendar = "*"
anyhow = "*"
