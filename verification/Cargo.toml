[package]
name = "classifiles"
version = "0.1.0"
edition = "2021"
publish = false

[dependencies]
tree_magic_mini = "*"
magic = "*"
mime-db = "*"
roxmltree = "*"
rand = "*"
walkdir = "*"
serde = { version = "*", features = ["derive"] }
serde_yaml = "*"
