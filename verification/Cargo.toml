[package]
name = "kernel"
version = "0.1.0"
edition = "2021"
publish = false

[dependencies]
cortex-m-semihosting = "0.3"
embedded-hal = "0.2"
nb = "0.1"
vcell = "0.1"
volatile-register = "0.2"
