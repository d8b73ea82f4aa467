[package]
name = "wasm_server_runner"
version = "0.1.0"
edition = "2021"
publish = false

[dependencies]
anyhow = "*"
axum = { version = "*", features = ["ws"] }
axum-server = { version = "*", features = ["tls-rustls"] }
axum-server-dual-protocol = "*"
directories = "*"
fastrand = "*"
http = "*"
rcgen = "*"
tokio = { version = "*", features = ["rt-multi-thread", "macros", "net"] }
tower = "*"
tower-http = { version = "*", features = ["fs", "set-header", "compression-gzip", "compression-br"] }
tracing = "*"
tracing-subscriber = { version = "*", features = ["env-filter"] }
wasm-bindgen-cli-support = "*"
