[package]
name = "psxember-core"
version = "0.1.0"
edition = "2021"
publish = false

[dependencies]
arbitrary-int = "*"
bitbybit = "*"
derive_more = { version = "2", features = ["display", "deref", "deref_mut"] }
miette = "7"
thiserror = "2"
