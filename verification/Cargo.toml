[package]
name = "sptth"
version = "0.1.0"
edition = "2021"
publish = false

[dependencies]
anyhow = "*"
axum = "*"
hickory-proto = "*"
http = "*"
hyper = { version = "*", features = ["server", "http1"] }
hyper-util = { version = "*", features = ["tokio"] }
rcgen = "*"
reqwest = { version = "*", default-features = false, features = ["rustls-tls"] }
rustls = { version = "*", features = ["ring"] }
rustls-pemfile = "*"
serde = { version = "*", features = ["derive"] }
time = "*"
tokio = { version = "*", features = ["rt-multi-thread", "net", "time", "signal", "macros"] }
tokio-rustls = "*"
toml = "*"
tower = { version = "*", features = ["util"] }
