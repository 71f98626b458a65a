[package]
name = "remote-lab"
version = "0.1.0"
edition = "2021"
publish = false

[dependencies]
anyhow = "1"
arboard = { version = "3", default-features = false }
clap = { version = "4", default-features = false, features = ["derive", "error-context", "help", "std", "usage"] }
enigo = { version = "0.2", default-features = false, features = ["x11rb"] }
futures-util = "0.3"
image = { version = "0.25", default-features = false, features = ["jpeg"] }
notify-rust = "4"
serde = { version = "1", features = ["derive"] }
serde_json = "1"
tokio = { version = "1", features = ["io-std", "io-util", "macros", "net", "rt-multi-thread", "time"] }
tokio-tungstenite = "0.24"
