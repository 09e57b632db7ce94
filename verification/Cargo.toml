[package]
name = "flash_writer"
version = "0.1.0"
edition = "2021"
publish = false

[dependencies]
stm32f0xx-hal = { version = "=0.18.0", features = ["stm32f030x8"] }
stm32-device-signature = { version = "=0.3.3", features = ["stm32f0"] }
