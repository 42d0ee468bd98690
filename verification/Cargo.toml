[package]
name = "blitz_dom"
version = "0.1.0"
edition = "2021"
publish = false

[dependencies]
slab = "0.4"
html-escape = "0.2"
url = "2"
markup5ever = "*"
html5ever = "*"
app_units = "*"
cursor-icon = "1"
taffy = "*"
serde = { version = "1", features = ["derive"] }
