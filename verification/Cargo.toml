[package]
name = "riverdi-rva35hi-stm32u5-embassy"
version = "0.1.0"
edition = "2021"
publish = false

[dependencies]
cortex-m = "0.7"
defmt = "0.3"
embassy-executor = "0.7"
embassy-stm32 = { version = "0.2", default-features = false, features = ["stm32u575zi", "unstable-pac"] }
embassy-time = "0.4"
embedded-graphics = "0.8"
