[package]
name = "skribble_css"
version = "0.1.0"
edition = "2021"
publish = false

[dependencies]
serde_json = { version = "1", features = ["preserve_order"] }
colorsys = "0.6"
heck = "0.4"
swc_common = "*"
swc_ecma_ast = "*"
swc_ecma_parser = "*"
