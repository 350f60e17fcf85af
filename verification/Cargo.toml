[package]
name = "meerkat"
version = "0.1.0"
edition = "2021"
publish = false

[dependencies]
acpi = { version = "5", default-features = false }
tracing = { version = "0.1", default-features = false }
