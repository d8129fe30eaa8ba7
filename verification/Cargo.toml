[package]
name = "message_format"
version = "0.1.0"
edition = "2021"
publish = false

[dependencies]
icu = "1"
icu_decimal = "1"
