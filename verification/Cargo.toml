[package]
name = "simulation"
version = "0.1.0"
edition = "2021"
publish = false

[dependencies]
itertools = "0.10"
serde = { version = "1", features = ["derive"] }
serde_json = "1"
wasm-bindgen = "0.2"
js-sys = "0.3"
web-sys = { version = "0.3", features = ["CanvasRenderingContext2d", "Document", "Element", "HtmlCanvasElement", "HtmlInputElement", "Window", "console"] }
gloo-storage = "0.2"
gloo-render = "0.1"
yew = "0.19"
tracing = "0.1"
tracing-wasm = "0.2"
tap = "1"
console_error_panic_hook = "0.1"
