[package]
name = "game_world"
version = "0.1.0"
edition = "2021"
publish = false

[dependencies]
openraft = { version = "=0.8.3", features = ["serde"] }
actix-web = { version = "=4.18.1", default-features = false, features = ["macros", "compress-gzip"] }
tokio = { version = "=1.54.1", features = ["full"] }
reqwest = { version = "=0.11.27", default-features = false, features = ["json"] }
serde = { version = "=1.0.229", features = ["derive"] }
serde_json = "=1.0.154"
clap = { version = "=4.6.7", features = ["derive"] }
tracing = "=0.1.44"
tracing-subscriber = { version = "=0.3.23", features = ["env-filter"] }
rand = "=0.8.8"
thiserror = "=1.0.69"
async-trait = "=0.1.92"
