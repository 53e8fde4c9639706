[package]
name = "text"
version = "0.1.0"
edition = "2021"
publish = false

[dependencies]
fontdb = "0.16"
rangemap = "1"
rustybuzz = "0.12"
swash = "0.1"
self_cell = "1"
sys-locale = "0.3"
unicode-bidi = "0.3"
libm = "0.2"
log = "0.4"
unicode-segmentation = "1"
tracing-subscriber = { version = "0.3", features = ["env-filter"] }
gtk4 = "*"
skia-safe = "*"
