[package]
name = "mosh_client"
version = "0.1.0"
edition = "2021"
publish = false

[dependencies]
aead = "0.5"
aes = "0.8"
ocb3 = "0.1"
base64 = "0.22"
flate2 = "1"
rand = "0.8"
vte = "0.13"
anyhow = "1"
log = "0.4"
env_logger = "0.11"
clap = { version = "4", features = ["derive"] }
crossterm = "0.27"
tokio = { version = "1", features = ["rt-multi-thread", "macros", "net", "time", "io-util"] }
russh = "0.45"
russh-keys = "0.45"
async-trait = "0.1"
windows-sys = { version = "0.59", features = ["Win32_Foundation", "Win32_System_Console", "Win32_UI_WindowsAndMessaging"] }

[dev-dependencies]
prost = "0.13"
