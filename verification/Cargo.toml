[package]
name = "gcad_webview"
version = "0.1.0"
edition = "2021"
publish = false

[dependencies]
anyhow = "1"
js-sys = "0.3"
libgcad = "*"
nalgebra = "*"
wasm-bindgen = "0.2"
web-sys = { version = "0.3", features = ["console", "Document", "Element", "EventTarget", "HtmlCanvasElement", "MessageEvent", "MouseEvent", "WebGl2RenderingContext", "WebGlBuffer", "WebGlProgram", "WebGlShader", "WebGlUniformLocation", "WebGlVertexArrayObject", "WheelEvent", "Window"] }
