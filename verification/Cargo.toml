[package]
name = "whereisclass"
version = "0.1.0"
edition = "2021"
publish = false

[dependencies]
scraper = "*"
roxmltree = "*"
serde = "*"
serde_json = "*"
serde_derive = "*"
structopt = "*"
postgres = "*"
bimap = "*"
Inflector = "*"
