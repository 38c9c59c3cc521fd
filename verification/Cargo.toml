[package]
name = "chat_worker"
version = "0.1.0"
edition = "2021"
publish = false

[dependencies]
ohkami = { version = "=0.20.0", features = ["rt_worker"] }
worker = "=0.3.4"
web-sys = { version = "=0.3.107", features = ["WorkerGlobalScope", "Crypto"] }
reqwest = { version = "=0.12.28", default-features = false, features = ["json", "stream"] }
thiserror = "=1.0.69"
console_error_panic_hook = "=0.1.7"
