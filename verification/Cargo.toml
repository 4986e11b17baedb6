[package]
name = "ariel_os_threads"
version = "0.1.0"
edition = "2021"
publish = false

[dependencies]
critical-section = "1"
portable-atomic = "1"
cortex-m = "0.7"
static_cell = "2"
linkme = "0.3"
