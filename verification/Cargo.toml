[package]
name = "solitare"
version = "0.1.0"
edition = "2021"
publish = false

[dependencies]
rand = "0.9"
rand_chacha = "0.9"
getrandom = "0.3"
log = "0.4"
js-sys = "0.3"
wasm-bindgen = "0.2"
wasm-logger = "0.2"
gloo-events = "0.2"
gloo-timers = "0.3"
yew = { version = "0.21", features = ["csr"] }
web-sys = { version = "0.3", features = ["Window", "Document", "Element", "DomRect", "Storage", "MediaQueryList", "KeyboardEvent", "PointerEvent", "TransitionEvent", "MouseEvent", "EventTarget", "HtmlElement"] }
