[package]
name = "tor-replay"
version = "0.1.0"
edition = "2021"
publish = false

[dependencies]
egui = { version = "0.33", default-features = false }
eframe = { version = "0.33", default-features = false, features = ["glow", "x11"] }
egui_extras = { version = "0.33", default-features = false }
reqwest = { version = "0.12", default-features = false, features = ["json", "rustls-tls"] }
tokio = { version = "1", default-features = false, features = ["rt-multi-thread"] }
serde = { version = "1", features = ["derive"] }
wasm-bindgen = "0.2"
wasm-bindgen-futures = "0.4"
web-sys = { version = "0.3", features = ["Window", "Document", "Element", "HtmlCanvasElement", "console"] }
console_error_panic_hook = "0.1"
