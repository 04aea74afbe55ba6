[package]
name = "c_translator"
version = "0.1.0"
edition = "2021"
publish = false

[dependencies]
diff = "*"
lang-c = "*"
dotenv = "*"
tracing = "*"
serde = { version = "1", features = ["derive"] }
async-trait = "*"
anthropic = "*"
tokio = { version = "1", features = ["rt", "macros"] }
