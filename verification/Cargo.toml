[package]
name = "account_auth"
version = "0.1.0"
edition = "2021"
publish = false

[dependencies]
hmac = "0.12"
sha2 = "0.10"
regex = "1"
tracing = "0.1"
async-graphql = { version = "*", default-features = false }
sea-orm = { version = "*", default-features = false, features = ["macros"] }
