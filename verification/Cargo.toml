[package]
name = "tempget"
version = "0.1.0"
edition = "2021"
publish = false

[dependencies]
reqwest = { version = "*", default-features = false, features = ["blocking"] }
zip = { version = "*", default-features = false, features = ["deflate"] }
config = { version = "*", default-features = false, features = ["toml"] }
serde = { version = "*", features = ["derive"] }
console = "*"
number_prefix = "*"
structopt = "*"
