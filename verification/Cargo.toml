[package]
name = "subfeed"
version = "0.1.0"
edition = "2021"
publish = false

[dependencies]
serde_json = "1"
html-escape = "0.2"
num-format = "0.4"
ron = "0.8"
serde = { version = "1", features = ["derive"] }
futures = "0.3"
gloo = { version = "0.11", features = ["futures"] }
leptos = { version = "0.6", features = ["csr"] }
leptos_router = { version = "0.6", features = ["csr"] }
web-sys = { version = "0.3", features = ["Blob", "Event", "EventTarget", "File", "FileList", "HtmlInputElement"] }
wasm-bindgen = "0.2"
wasm-bindgen-futures = "0.4"
