[package]
name = "deck_pi"
version = "0.1.0"
edition = "2021"
publish = false

[dependencies]
unicode-width = "=0.2.3"
unicode-normalization = "=0.1.26"
u8g2-fonts = { version = "=0.8.0", features = ["embedded_graphics_textstyle"] }
embedded-graphics = "=0.8.2"
libc = "=0.2.191"
assert_no_alloc = { version = "=1.1.2", default-features = false, features = ["warn_release"] }
alsa = "=0.12.1"
alsa-sys = "=0.6.1"
