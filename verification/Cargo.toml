[package]
name = "yerd-dump"
version = "0.1.0"
edition = "2021"
publish = false

[dependencies]
ext-php-rs = { version = "=0.15.15", features = ["observer"] }
getrandom = "=0.2.17"
serde = { version = "=1.0.229", features = ["derive"] }
serde_json = "=1.0.154"
