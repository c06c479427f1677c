[package]
name = "cargo_scripts"
version = "0.1.0"
edition = "2021"
publish = false

[dependencies]
pulldown-cmark = "*"
syn = { version = "*", features = ["full"] }
toml_edit = "*"
toml = "*"
serde = { version = "*", features = ["derive"] }
serde_json = "*"
anyhow = "*"
structopt = "*"
ureq = "*"
dirs = "*"
remove_dir_all = "*"
ignore = "*"
rpassword = "*"
