[package]
name = "secrets_manager"
version = "0.1.0"
edition = "2021"
publish = false

[dependencies]
aes-gcm = "=0.10.3"
argon2 = "=0.5.3"
chrono = "=0.4.45"
