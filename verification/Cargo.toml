[package]
name = "notata"
version = "0.1.0"
edition = "2021"
publish = false

[dependencies]
quick-xml = "=0.42.0"
base64 = "=0.23.1"
urlencoding = "=2.1.3"
zip = { version = "=9.2.2", default-features = false, features = ["deflate"] }
lofty = "=0.21.1"
id3 = "=1.17.2"
strsim = "=0.11.1"
sha2 = "=0.11.1"
chrono = { version = "=0.4.45", default-features = false, features = ["clock"] }
symphonia = { version = "=0.5.5", features = ["mp3", "aac", "alac", "isomp4"] }
rusty-chromaprint = "=0.3.0"

[dev-dependencies]
strsim = "=0.11.1"
