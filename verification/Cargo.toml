[package]
name = "stunt"
version = "0.1.0"
edition = "2021"
publish = false

[dependencies]
spin = "0.9"
wasm-bindgen = "0.2"
web-sys = { version = "0.3", features = ["Window", "Document", "Element", "HtmlElement", "Node", "Text", "XPathResult", "EventTarget", "console"] }
