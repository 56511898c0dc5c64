[package]
name = "uefi_engine"
version = "0.1.0"
edition = "2021"
publish = false

[dependencies]
liblzma = { version = "0.4", features = ["static"] }
lzma-rs = "0.3"
object = { version = "0.36", default-features = false, features = ["read_core", "pe"] }
serde = { version = "1", features = ["derive"] }
serde_json = "1"
thiserror = "2"
clap = { version = "4", features = ["derive", "env"] }
anyhow = "1"
directories = "5"
