[package]
name = "counterbot"
version = "0.1.0"
edition = "2021"
publish = false

[dependencies]
dotenv = "=0.15.0"
tokio = { version = "=1.53.2", features = ["full"] }
twitch-irc = { version = "=6.1.3", default-features = false, features = ["transport-tcp-rustls-webpki-roots"] }
