[package]
name = "connector"
version = "0.1.0"
edition = "2021"
publish = false

[dependencies]
serde_json = "=1.0.154"
regex = "=1.13.1"
cliclack = "=0.5.7"
console = "=0.16.6"
anyhow = "=1.0.104"
rustix = { version = "=1.1.6", features = ["mount", "fs"] }
windows-sys = { version = "=0.61.2", features = ["Win32_Foundation", "Win32_NetworkManagement_WNet"] }
winreg = "=0.56.0"
