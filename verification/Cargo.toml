[package]
name = "superhist"
version = "0.1.0"
edition = "2021"
publish = false

[dependencies]
chrono = "0.4"
crossterm = { version = "0.20", features = ["event-stream"] }
file-lock = "1"
filetime = "0.2"
futures = "0.3"
hostname = "0.3"
lazy_static = "1"
regex = "1"
serde = { version = "1", features = ["derive"] }
serde_json = "1"
structopt = "0.3"
termion = "1"
thiserror = "1"
tokio = { version = "1", features = ["rt"] }
unicode-width = "0.1"
xz2 = "0.1"
