[package]
name = "clipboard"
version = "0.1.0"
edition = "2021"
publish = false

[dependencies]
anyhow = "1"
calloop = "*"
filedescriptor = "*"
js-sys = "0.3"
log = "0.4"
wasm-bindgen = "0.2"
wasm-bindgen-futures = "0.4"
wayland-client = "*"
wayland-protocols = { version = "*", features = ["client", "unstable"] }
web-sys = { version = "0.3", features = ["Blob", "BlobPropertyBag", "Clipboard", "ClipboardItem", "Navigator", "Window"] }
