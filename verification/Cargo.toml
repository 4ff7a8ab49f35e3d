[package]
name = "rx"
version = "0.1.0"
edition = "2021"
publish = false

[dependencies]
nonempty = "=0.12.0"
snap = "=0.2.5"
seahash = "=4.1.0"
pico-args = "=0.5.0"
png = "=0.16.8"
directories = "=6.0.0"
memoir = "=0.3.0"
rgx = { version = "*", default-features = false }
