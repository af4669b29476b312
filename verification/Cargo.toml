[package]
name = "biblia"
version = "0.1.0"
edition = "2021"
publish = false

[dependencies]
serde_json = "*"
dotenv = "*"
tokio = { version = "*", features = ["macros", "rt-multi-thread"] }
reqwest = { version = "*", default-features = false, features = ["blocking", "json", "rustls-tls"] }
serenity = "*"

[dev-dependencies]
strsim = "*"
