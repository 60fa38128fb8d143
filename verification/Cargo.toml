[package]
name = "crawl_worker"
version = "0.1.0"
edition = "2021"
publish = false

[dependencies]
sha2 = "0.10"
whatlang = "*"
reqwest = { version = "*", default-features = false, features = ["blocking"] }
