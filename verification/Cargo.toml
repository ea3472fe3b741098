[package]
name = "break_eternity"
version = "0.5.0"
edition = "2021"
publish = false

[dependencies]
thiserror = "2"
serde = "1"
proptest = "1"
schemars = "1"
