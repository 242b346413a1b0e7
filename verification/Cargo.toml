[package]
name = "unicorn_snake"
version = "0.1.0"
edition = "2021"
publish = false

[dependencies]
arraydeque = "=0.4.5"
embedded-hal = "=0.2.7"
panic-halt = "=0.2.0"
smart-leds = "=0.3.0"
ws2812-spi = "=0.4.0"
