[package]
name = "lapse"
version = "0.1.0"
edition = "2021"
publish = false

[dependencies]
serde_json = "1"
http = "1"
serde = { version = "1", features = ["derive"] }
thiserror = "2"
mlua = { version = "0.10", features = ["lua54", "vendored", "async", "serialize"] }
reqwest = { version = "0.12", default-features = false, features = ["cookies", "multipart", "rustls-tls"] }
tokio = { version = "1", features = ["macros", "rt-multi-thread", "fs"] }
clap = { version = "4", features = ["derive"] }
clap_complete = "4"
colored = "2"
chrono = "0.4"
dirs = "5"
inquire = "0.7"
is-terminal = "0.4"
minus = { version = "5", features = ["dynamic_output"] }
nucleo-matcher = "0.3"
chumsky = "0.10"
