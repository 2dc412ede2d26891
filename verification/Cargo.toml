[package]
name = "string_lexer"
version = "0.1.0"
edition = "2021"
publish = false

[dependencies]
colored = "*"
fxhash = "0.2"
git2 = "*"
hex = "0.4"
once_cell = "1"
serde = { version = "1", features = ["derive"] }
serde_json = "1"
