[package]
name = "vyasa_compiler"
version = "0.1.0"
edition = "2021"
publish = false

[dependencies]
pom = "3"
