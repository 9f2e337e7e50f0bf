[package]
name = "tuwunel"
version = "0.1.0"
edition = "2021"
publish = false

[dependencies]
arrayvec = "0.7"
axum = { version = "0.8", default-features = false, features = ["http1", "http2", "tokio"] }
futures = "0.3"
hyper = { version = "1", features = ["server", "http1", "http2"] }
hyper-util = { version = "0.1", features = ["server", "server-auto", "tokio", "service", "http1", "http2"] }
ruma = { version = "*", features = ["events"] }
serde = { version = "1", features = ["derive"] }
serde_json = { version = "1", features = ["raw_value"] }
tokio = { version = "1", features = ["fs", "macros", "net", "rt", "rt-multi-thread", "sync", "time"] }
tower = { version = "0.5", features = ["util"] }
tracing = "0.1"
