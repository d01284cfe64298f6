[package]
name = "ebay_pricer"
version = "0.1.0"
edition = "2021"
publish = false

[dependencies]
base64 = "*"
urlencoding = "*"
clap = { version = "*", features = ["derive"] }
csv = "*"
dotenv = "*"
reqwest = { version = "*", default-features = false, features = ["json"] }
serde = { version = "*", features = ["derive"] }
tokio = { version = "*", features = ["macros", "rt-multi-thread"] }
