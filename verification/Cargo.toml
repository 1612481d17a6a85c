[package]
name = "rfmon"
version = "0.1.0"
edition = "2021"
publish = false

[dependencies]
num-complex = "*"
rustfft = "*"
serde = { version = "*", features = ["derive"] }
toml = "*"
uuid = { version = "*", features = ["serde"] }
sqlx = { version = "*", features = ["postgres", "runtime-tokio", "uuid"] }
tokio = { version = "*", features = ["macros", "rt-multi-thread"] }
soapysdr = "*"
