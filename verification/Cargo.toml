[package]
name = "keep_a_changelog_parser"
version = "0.1.0"
edition = "2021"
publish = false

[dependencies]
pulldown-cmark = "0.8"
codespan = "0.11"
codespan-reporting = "0.11"
