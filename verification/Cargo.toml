[package]
name = "glyph_wave"
version = "0.1.0"
edition = "2021"
publish = false

[dependencies]
dioxus = { version = "0.6", features = ["web"] }
web-sys = { version = "0.3", features = ["Window", "Document", "Element", "HtmlCanvasElement", "CanvasRenderingContext2d", "WebGl2RenderingContext", "WebGlProgram", "WebGlShader", "WebGlTexture", "WebGlBuffer", "WebGlUniformLocation", "WebGlVertexArrayObject"] }
wasm-bindgen = "0.2"
js-sys = "0.3"
gloo-timers = { version = "0.3", features = ["futures"] }
