[package]
name = "monty_compat"
version = "0.5.0"
edition = "2021"
publish = false

[dependencies]
regex = "1"
serde = { version = "1", features = ["derive"] }
serde_json = "1"
sha2 = "0.10"
zip = "*"
minreq = { version = "2", features = ["https-rustls"] }
clap = { version = "4", features = ["derive"] }
