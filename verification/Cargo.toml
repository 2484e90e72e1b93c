[package]
name = "matea_switcher"
version = "0.1.0"
edition = "2021"

[dependencies]
anyhow = "1"
async-trait = "0.1"
atspi = "*"
directories = "*"
encoding_rs = "0.8"
evdev = { version = "0.13", features = ["tokio"] }
futures-lite = "2"
hunspell-rs = "*"
serde = { version = "1", features = ["derive"] }
tokio = { version = "1", features = ["macros", "rt", "signal", "sync", "time"] }
toml = "*"
tracing = "0.1"
tracing-subscriber = { version = "0.3", features = ["env-filter"] }
xkbcommon = "0.8"
zbus = { version = "5", default-features = false, features = ["tokio"] }
