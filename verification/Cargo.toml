[package]
name = "email_syntax_verify_opt"
version = "0.1.0"
edition = "2021"
publish = false

[dependencies]
idna = "1"
