[package]
name = "sdmmc_spi"
version = "0.1.0"
edition = "2021"
publish = false

[dependencies]
embedded-hal = "1.0.0"
embedded-hal-async = "1.0.0"
