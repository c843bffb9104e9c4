[package]
name = "aviutl2_omt_live_output"
version = "0.1.0"
edition = "2021"
publish = false

[dependencies]
openmediatransport = "*"
aviutl2 = "*"
serde = { version = "1", features = ["derive"] }
tracing = "*"
