[package]
name = "mdbook_git_atom"
version = "0.1.0"
edition = "2021"
publish = false

[dependencies]
atom_syndication = "*"
chrono = "0.4"
clap = "2"
git2 = { version = "*", default-features = false }
html-escape = "0.2"
mdbook = { version = "0.4", default-features = false }
pulldown-cmark = { version = "0.9", default-features = false }
serde_json = "1"
toml = "0.5"
url = "2"

[dev-dependencies]
regex = "1"
