[package]
name = "rokumon"
version = "0.1.0"
edition = "2021"
publish = false

[dependencies]
cfg-if = "=1.0.5"
failure = "=0.1.8"
itertools = "=0.10.5"
nom = "=5.1.3"
rand = "=0.8.8"
rayon = "=1.12.0"
rubot = "=0.3.0"
rustyline = "=6.3.0"
serde = { version = "=1.0.229", features = ["derive"] }
structopt = "=0.3.26"
wasm-bindgen = { version = "=0.2.129", features = ["serde-serialize"] }
web-sys = { version = "=0.3.106", features = ["Window", "Performance"] }
