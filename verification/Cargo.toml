[package]
name = "piet_embedded_graphics"
version = "0.1.0"
edition = "2021"
publish = false

[dependencies]
embedded-graphics = "0.4"
heapless = "0.8"
embedded-hal = "*"
st7735-lcd = "*"
arrayvec = "*"
