[package]
name = "zyma"
version = "0.1.0"
edition = "2021"
publish = false

[dependencies]
regex = "=1.13.1"
globset = "=0.4.20"
num_cpus = "=1.17.0"
ignore = "=0.4.33"
walkdir = "=2.5.0"
serde = { version = "=1.0.229", features = ["derive"] }
serde_json = "=1.0.154"
tokio = { version = "=1.54.1", features = ["sync", "rt", "time"] }
notify = "=6.1.1"
futures = "=0.3.34"
bytes = "=1.12.1"
reqwest = { version = "=0.12.28", default-features = false, features = ["json", "stream"] }
winreg = "*"
winapi = { version = "0.3", features = ["processthreadsapi", "securitybaseapi", "winnt"] }
