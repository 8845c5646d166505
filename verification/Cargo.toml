[package]
name = "yanvm"
version = "0.1.0"
edition = "2021"
publish = false

[dependencies]
anyhow = "=1.0.104"
clap = { version = "=4.6.7", features = ["derive"] }
directories = "=6.0.0"
flate2 = "=1.1.10"
futures-util = "=0.3.34"
indicatif = "=0.18.6"
quork = "=0.9.1"
reqwest = { version = "=0.12.28", default-features = false, features = ["json", "rustls-tls", "stream"] }
serde = { version = "=1.0.229", features = ["derive"] }
tar = "=0.4.46"
thiserror = "=2.0.21"
tokio = { version = "=1.53.2", features = ["macros", "rt-multi-thread"] }
toml = "=1.1.7"
tracing = "=0.1.44"
tracing-subscriber = "=0.3.23"
xz2 = { version = "=0.1.7", features = ["static"] }
zip = { version = "=8.6.0", default-features = false, features = ["deflate"] }
