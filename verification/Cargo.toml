[package]
name = "stable_fluids"
version = "0.1.0"
edition = "2021"
publish = false

[dependencies]
wasm-bindgen = "*"
console_error_panic_hook = "*"

[dependencies.web-sys]
version = "*"
features = ["CanvasRenderingContext2d", "Document", "Element", "Event", "HtmlCanvasElement", "MouseEvent", "Navigator", "Performance", "PointerEvent", "Window", "console"]
