[package]
name = "zm-mux"
version = "0.1.0"
edition = "2021"
publish = false

[dependencies]
serde = { version = "1", features = ["derive"] }
serde_json = "1"
toml = "0.9"
interprocess = "2"
portable-pty = "0.9"
alacritty_terminal = "0.26"
winit = "0.30"
wgpu = "29"
glyphon = "0.11"
pollster = "0.4"
bytemuck = { version = "1", features = ["derive"] }
log = "0.4"
env_logger = { version = "0.11", default-features = false }
notify-rust = "4"
rmcp = { version = "3", features = ["server", "macros", "transport-io"] }
tokio = { version = "1", features = ["macros", "rt", "io-std"] }
anyhow = "1"
thiserror = "2"
