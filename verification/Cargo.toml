[package]
name = "expense_ledger"
version = "0.1.0"
edition = "2021"
publish = false

[dependencies]
chrono = "=0.4.45"
gloo-dialogs = "=0.1.1"
serde = { version = "=1.0.229", features = ["derive"] }
serde_json = { version = "=1.0.154", features = ["preserve_order"] }
serde-wasm-bindgen = "=0.4.5"
wasm-bindgen = "=0.2.129"
wasm-bindgen-futures = "=0.4.79"
web-sys = { version = "=0.3.106", features = ["HtmlInputElement"] }
yew = { version = "=0.20.0", features = ["csr"] }
