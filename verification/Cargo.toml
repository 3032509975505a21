[package]
name = "pico_kernel"
version = "0.1.0"
edition = "2021"
publish = false

[dependencies]
cortex-m = "0.7"
critical-section = "1"
embedded-alloc = "0.6"
embedded-hal = "1"
rp235x-hal = { version = "*", features = ["rt", "critical-section-impl"] }
