[package]
name = "regex_syntax"
version = "0.5.0"
edition = "2021"

[dependencies]
either = "1"
