[package]
name = "monkeytype"
version = "0.1.0"
edition = "2021"
publish = false

[dependencies]
random_word = { version = "0.4", features = ["en"] }
yew = { version = "0.21", features = ["csr"] }
web-sys = { version = "0.3", features = ["Element", "EventTarget", "HtmlElement", "HtmlTextAreaElement", "Node", "KeyboardEvent", "console"] }
