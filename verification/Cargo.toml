[package]
name = "songsort"
version = "0.1.0"
edition = "2021"
publish = false

[dependencies]
azure_core = "0.1"
azure_data_cosmos = "0.1"
futures = "0.3"
hyper = { version = "0.14", features = ["full"] }
hyper-tls = "0.5"
rand = "0.8"
regex = "1"
serde = { version = "1", features = ["derive"] }
serde_json = "1"
tokio = { version = "1", features = ["full"] }
uuid = { version = "0.8", features = ["v4"] }
wasm-bindgen = { version = "0.2", features = ["serde-serialize"] }
wasm-bindgen-futures = "0.4"
web-sys = { version = "0.3", features = ["Document", "Element", "Headers", "HtmlAnchorElement", "HtmlButtonElement", "HtmlCollection", "HtmlIFrameElement", "HtmlInputElement", "Location", "Node", "Request", "RequestInit", "RequestMode", "Response", "UrlSearchParams", "Window", "console"] }
