[package]
name = "ddgen"
version = "0.1.0"
edition = "2021"
publish = false

[dependencies]
convert_case = "0.6"
serde = { version = "1", features = ["derive"] }
toml = "0.8"
clap = { version = "4", features = ["derive"] }
genco = "0.17"
anyhow = "1"
embedded-hal = "1.0"
semver = { version = "1", features = ["serde"] }
nom = "7"
