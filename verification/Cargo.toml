[package]
name = "cr_tools"
version = "0.1.0"
edition = "2021"
publish = false

[dependencies]
anyhow = "=1.0.104"
chrono = "=0.4.45"
float-pretty-print = "=0.1.1"
libocc = "=0.4.0"
serde = { version = "=1.0.229", features = ["derive"] }
serde_derive = "=1.0.229"
strum = "=0.28.0"
strum_macros = "=0.28.0"
thiserror = "=1.0.69"
uuid = { version = "=0.8.2", features = ["v4", "serde"] }
wasm-bindgen = "=0.2.129"
yew = "=0.17.4"
