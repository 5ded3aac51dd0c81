[package]
name = "logdna_cli"
version = "0.1.0"
edition = "2021"
publish = false

[dependencies]
base32 = "0.4"
clap = { version = "3", features = ["derive"] }
directories = "4"
humantime = "2"
open = "3"
rand = "0.8"
reqwest = { version = "0.11", default-features = false, features = ["json"] }
rpassword = "7"
serde = { version = "1", features = ["derive"] }
serde_json = "1"
tokio = { version = "1", features = ["rt-multi-thread", "macros", "time"] }
url = "2"
