[package]
name = "vial"
version = "0.1.9"
edition = "2021"
publish = false

[dependencies]
autolink = "=0.3.0"
brotli2 = "=0.3.2"
cookie2 = "=0.12.0"
libc-strftime = "=0.2.0"
libflate = "=2.3.2"
nanoserde = "=0.2.1"
pulldown-cmark = { version = "=0.13.5", default-features = false, features = ["html"] }
serde = "=1.0.229"
serde_json = "=1.0.154"
short-crypt = "=1.0.30"
threadpool = "=1.8.1"
zstd = "=0.14.3"
