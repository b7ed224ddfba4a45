[package]
name = "rcm"
version = "0.1.0"
edition = "2021"
publish = false

[dependencies]
serde_json = "*"
serde = { version = "*", features = ["derive"] }
clap = { version = "*", features = ["derive"] }
tokio = { version = "*", features = ["rt-multi-thread", "macros", "fs"] }
reqwest = { version = "*", default-features = false, features = ["gzip"] }
async-trait = "*"
colored = "*"
color-eyre = "*"
term-table = "*"
terminal-menu = "*"
spinners = "*"
directories-next = "*"
tracing = "*"
tracing-subscriber = { version = "*", features = ["env-filter"] }
webbrowser = "*"
yup-oauth2 = "*"
rustyline = "*"
