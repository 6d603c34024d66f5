[package]
name = "presence"
version = "0.1.0"
edition = "2021"
publish = false

[dependencies]
calamine = "=0.26.1"
chrono = { version = "=0.4.45", default-features = false, features = ["std"] }
csv = "=1.4.0"
encoding_rs = "=0.8.42"
genpdf = "=0.2.0"
rfd = { version = "=0.14.1", default-features = false, features = ["xdg-portal", "async-std"] }
serde = { version = "=1.0.229", features = ["derive"] }

[dev-dependencies]
zip = { version = "=2.2.0", default-features = false, features = ["deflate"] }
