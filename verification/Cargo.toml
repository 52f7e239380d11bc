[package]
name = "suumo_traveltime"
version = "0.1.0"
edition = "2021"
publish = false

[dependencies]
chrono = "0.4"
dioxus = { version = "0.7", features = ["fullstack"] }
random_color = "*"
reqwest = { version = "0.12", default-features = false, features = ["json", "rustls-tls"] }
rusqlite = { version = "*", features = ["bundled"] }
serde = { version = "1", features = ["derive"] }
serde_json = "1"
thiserror = "2"
