[package]
name = "dioxus_primitives"
version = "0.1.0"
edition = "2021"
publish = false

[dependencies]
dioxus = { version = "=0.7.10", default-features = false, features = ["signals", "hooks", "macro", "html", "document", "mounted"] }
dioxus-core = "=0.7.10"
dioxus-sdk-time = "=0.7.0"
time = { version = "=0.3.55", features = ["local-offset"] }
tracing = "=0.1.44"
