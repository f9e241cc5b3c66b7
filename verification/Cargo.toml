[package]
name = "stream_stuff_on_a_sozu_channel"
version = "0.1.0"
edition = "2021"
publish = false

[dependencies]
anyhow = "=1.0.104"
mio = { version = "=0.8.11", features = ["os-poll", "net"] }
serde = { version = "=1.0.229", features = ["derive"] }
serde_derive = "=1.0.229"
serde_json = "=1.0.154"
