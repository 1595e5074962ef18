[package]
name = "reify_scan"
version = "0.1.0"
edition = "2021"
publish = false

[dependencies]
glob = "*"
rayon = "*"
tree-sitter = "*"
tree-sitter-clojure = "*"
zip = { version = "*", default-features = false, features = ["deflate"] }
