[package]
name = "repo_walker"
version = "0.1.0"
edition = "2021"
publish = false

[dependencies]
git2 = { version = "*", default-features = false, features = ["https"] }
serde = { version = "1", features = ["derive"] }

[dev-dependencies]
tempfile = "3"
