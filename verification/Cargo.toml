[package]
name = "burstq"
version = "0.1.0"
edition = "2021"
publish = false

[dependencies]
async-event = "=0.2.1"
crossbeam-utils = "=0.8.23"
