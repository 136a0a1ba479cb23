[package]
name = "http_response_cache"
version = "0.1.0"
edition = "2021"
publish = false

[dependencies]
http = "=0.2.12"
http-cache-semantics = "=1.0.2"
url = "=2.5.8"
reqwest = { version = "=0.11.27", default-features = false }
reqwest-middleware = "=0.2.5"
task-local-extensions = "=0.1.4"
async-trait = "=0.1.92"
anyhow = "=1.0.104"
