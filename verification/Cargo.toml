[package]
name = "ia_get"
version = "1.0.0"
edition = "2021"
publish = false

[dependencies]
clap = { version = "4", features = ["derive"] }
colored = "*"
ctrlc = "3"
digest = "*"
filetime = "0.2"
fs2 = "0.4"
httpdate = "1"
indicatif = "*"
md-5 = "*"
reqwest = { version = "0.12", default-features = false, features = ["rustls-tls"] }
serde = { version = "1", features = ["derive"] }
serde-xml-rs = "*"
thiserror = "*"
tokio = { version = "1", features = ["rt-multi-thread", "macros", "time"] }
url = "2"
