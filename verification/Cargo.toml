[package]
name = "ledtransit"
version = "0.1.0"
edition = "2021"
publish = false

[dependencies]
smart-leds = "*"
rgb = "*"
heapless = "0.9"
p256 = { version = "0.13", features = ["ecdsa", "pkcs8"] }
nourl = "*"
sha256 = { version = "*", default-features = false }
hex = "*"
toml = "*"
serde_json = "*"
regex = "*"
minify-html = "*"
edge-http = "*"
serde = { version = "1", features = ["derive"] }
postcard = { version = "1", features = ["heapless"] }
serde-json-core = "*"
chrono = "*"
clap = { version = "4", features = ["derive"] }
anyhow = "1"
env_logger = "*"
log = "*"
prost = "*"
embassy-sync = "*"
embassy-time = "*"
embassy-futures = "*"
edge-ws = "*"
embedded-io-async = "*"
