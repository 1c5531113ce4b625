[package]
name = "rlf"
version = "0.1.0"
edition = "2021"
publish = false

[dependencies]
const-fnv1a-hash = "1"
hangeul = "*"
icu_casemap = "2"
icu_locale_core = "2"
icu_plurals = "2"
strsim = "0.11"
unicode-segmentation = "1"
serde = { version = "1", features = ["derive"] }
thiserror = "2"
