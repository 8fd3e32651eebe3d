[package]
name = "brs"
version = "0.1.0"
edition = "2021"
publish = false

[dependencies]
bendy = "0.3"
sha1 = "0.10"
hex = "0.4"
rand = "0.8"
chrono = { version = "0.4", default-features = false, features = ["std"] }
human_bytes = "0.4"
thiserror = "1"
clap = { version = "4", features = ["derive"] }
clap_complete = "4"
tokio = { version = "1", features = ["macros", "rt-multi-thread"] }
reqwest = { version = "0.12", default-features = false }
