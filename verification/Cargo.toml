[package]
name = "kquickview"
version = "0.1.0"
edition = "2021"
publish = false

[dependencies]
aes = "0.8"
chrono = "0.4"
hex = "0.4"
dotenvy = "0.15"
mime_guess = "2"
pulldown-cmark = "0.12"
sqlx = { version = "0.8", default-features = false, features = ["mysql", "runtime-tokio"] }
tracing = "0.1"
cxx-qt = "0.7"
cxx-qt-lib = "0.7"
