[package]
name = "salada"
version = "0.1.0"
edition = "2021"
publish = false

[dependencies]
rusqlite = { version = "*", features = ["bundled"] }
uuid = { version = "*", features = ["v4"] }
log = "*"
time = { version = "*", features = ["formatting"] }
mime_guess = "*"
rustc-serialize = "*"
hyper = { version = "*", features = ["http1", "server"] }
hyper-util = { version = "*", features = ["tokio"] }
http-body-util = "*"
tokio = { version = "*", features = ["rt", "net", "macros", "io-util"] }
