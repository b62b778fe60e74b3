[package]
name = "rpi"
version = "0.1.24"
edition = "2021"
publish = false

[dependencies]
crossterm = "=0.29.0"
dirs = "=7.0.0"
globset = "=0.4.21"
semver = "=1.0.28"
serde = { version = "=1.0.229", features = ["derive"] }
serde_json = "=1.0.154"
tempfile = "=3.27.0"
tokio = { version = "=1.54.1", features = ["fs", "io-util", "macros", "net", "process", "rt", "sync", "time"] }
windows-sys = { version = "=0.61.2", features = ["Win32_Foundation", "Win32_Security", "Win32_System_JobObjects", "Win32_System_Pipes", "Win32_System_SystemInformation", "Win32_System_Threading"] }
yaml_serde = "=0.10.7"
