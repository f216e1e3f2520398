[package]
name = "gemini_git_browser"
version = "0.1.0"
edition = "2021"
publish = false

[dependencies]
anyhow = "1"
confy = "0.4"
env_logger = "0.8"
futures-core = "0.3"
futures-util = "0.3"
git2 = { version = "0.13", default-features = false }
handlebars = "3"
lazy_static = "1"
mime = "0.3"
serde = { version = "1", features = ["derive"] }
serde_json = "1"
tokio = { version = "1", features = ["macros", "rt-multi-thread", "time"] }

[dev-dependencies]
regex = "=1.13.1"
