[package]
name = "displaydoc"
version = "0.1.0"
edition = "2021"
publish = false

[dependencies]
proc-macro2 = "1.0"
quote = "1.0"
syn = "1.0"
