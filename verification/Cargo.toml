[package]
name = "grok"
version = "2.0.0"
edition = "2021"
publish = false

[dependencies]
fancy-regex = "*"
onig = { version = "6", default-features = false }
pcre2 = "0.2"
regex = "1"
