[package]
name = "l10nregistry"
version = "0.3.0"
edition = "2021"
publish = false

[dependencies]
async-trait = "=0.1.92"
fluent-bundle = "=0.16.0"
fluent-fallback = "=0.7.2"
futures = "=0.3.34"
replace_with = "=0.1.8"
rustc-hash = "=2.1.3"
unic-langid = "=0.9.6"
