[package]
name = "paperui"
version = "0.1.0"
edition = "2021"
publish = false

[dependencies]
heapless = "=0.8.0"
embedded-graphics = "=0.8.2"
embedded-hal = "=1.0.0"
critical-section = { version = "=1.2.0", features = ["std"] }
static_cell = "=2.1.1"
gt911 = "0.3"
