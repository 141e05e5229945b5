[package]
name = "story_engine"
version = "0.1.0"
edition = "2021"
publish = false

[dependencies]
diesel = { version = "*", features = ["postgres", "r2d2"] }
knuffel = "*"
miette = "*"
serenity = { version = "*", features = ["collector"] }
tokio = { version = "*", features = ["macros", "rt-multi-thread", "fs"] }
