[package]
name = "cs_handbook"
version = "0.1.0"
edition = "2021"
publish = false

[dependencies]
serde_json = "*"
serde = { version = "*", features = ["derive"] }
sqlx = { version = "*", default-features = false, features = ["sqlite", "runtime-tokio", "migrate"] }
tokio = { version = "*", features = ["macros", "rt-multi-thread", "net"] }
hyper = { version = "*", features = ["http1", "server"] }
hyper-util = { version = "*", features = ["tokio"] }
http-body-util = "*"
bytes = "*"
reqwest = { version = "*", default-features = false }
urlencoding = "*"
log = "*"
pretty_env_logger = "*"
