[package]
name = "comet"
version = "0.1.0"
edition = "2021"
publish = false

[dependencies]
uuid = { version = "=1.29.1", features = ["v4"] }
syn = { version = "=1.0.109", features = ["full", "extra-traits"] }
quote = "=1.0.47"
proc-macro2 = "=1.0.107"
derive-syn-parse = "=0.1.5"
clap = "=2.34.0"
colored = "=2.2.0"
which = "=4.4.2"
lazy_static = "=1.5.1"
serde = { version = "=1.0.229", features = ["derive"] }
serde_cbor = "=0.11.2"
tokio = { version = "=1.54.1", features = ["full"] }
futures = "=0.3.34"
axum = { version = "=0.5.17", features = ["ws"] }
axum-extra = { version = "=0.3.7", features = ["spa"] }
wasm-bindgen = "=0.2.130"
wasm-bindgen-futures = "=0.4.80"
web-sys = { version = "=0.3.107", features = ["Window", "Document", "Element", "HtmlElement", "DomTokenList", "HtmlInputElement", "Text", "Node", "EventTarget", "console"] }
ws_stream_wasm = "0.7"
pharos = "0.5"
async-trait = "0.1"
