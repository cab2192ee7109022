[package]
name = "codecrafters_shell"
version = "0.1.0"
edition = "2021"
publish = false

[dependencies]
anyhow = "1"
is_executable = "1"
rustyline = "*"

[dev-dependencies]
nom = "8"
