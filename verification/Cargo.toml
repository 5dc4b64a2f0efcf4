[package]
name = "rusty_roguelike"
version = "0.1.0"
edition = "2021"
publish = false

[dependencies]
rltk = { version = "0.8", default-features = false, features = ["crossterm", "serde"] }
specs = { version = "0.16", features = ["serde"] }
specs-derive = "0.4"
serde = { version = "1", features = ["derive"] }
