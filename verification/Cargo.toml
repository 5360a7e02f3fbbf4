[package]
name = "twml"
version = "0.1.0"
edition = "2021"
publish = false

[dependencies]
anyhow = "1"
dyn-fmt = "*"
fancy-regex = "*"
font-kit = "*"
headless_chrome = "*"
indoc = "2"
lopdf = "*"
notify = "*"
penguin = "*"
pest = "2"
pest_derive = "2"
railwind = "*"
tempfile = "3"
tokio = { version = "1", features = ["macros", "rt-multi-thread"] }
