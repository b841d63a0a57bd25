[package]
name = "dull_idle_game"
version = "0.1.0"
edition = "2021"
publish = false

[dependencies]
num = { version = "0.4", features = ["serde"] }
rand = "0.8"
chrono = { version = "0.4", features = ["serde"] }
serde = { version = "1", features = ["derive"] }
eframe = { version = "0.21", default-features = false, features = ["default_fonts", "glow", "persistence"] }
egui = "0.21"
strum = "0.24"
strum_macros = "0.24"
tracing-subscriber = "0.3"
console_error_panic_hook = "0.1"
tracing-wasm = "0.2"
wasm-bindgen-futures = "0.4"

[dev-dependencies]
serde_json = "1"
