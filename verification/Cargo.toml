[package]
name = "maildir_ai"
version = "0.1.0"
edition = "2021"
publish = false

[dependencies]
chrono = "=0.4.45"
tokio = { version = "=1.53.2", features = ["full"] }
utf8path = "=0.11.0"
arrrg = "=0.7.0"
arrrg_derive = "=0.7.0"
getopts = "=0.2.24"
yammer = "=0.16.0"
