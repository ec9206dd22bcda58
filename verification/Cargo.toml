[package]
name = "linky"
version = "0.2.0"
edition = "2021"
publish = false

[dependencies]
bytecount = "0.6"
clap = { version = "4", features = ["derive"] }
encoding = "0.2"
htmlstream = "0.1"
log = "0.4"
mime = "0.3"
pretty_env_logger = "0.5"
pulldown-cmark = { version = "0.8", default-features = false }
rayon = "1"
regex = "1"
reqwest = { version = "0.11", features = ["blocking"] }
shell-escape = "0.1"
unicode_categories = "0.1"
unicode-normalization = "0.1"
url = "2"
urlencoding = "1"
xhtmlchardet = "2"
