[package]
name = "evscript"
version = "0.1.0"
edition = "2021"
publish = false

[dependencies]
string-interner = "0.14"
codespan-reporting = "0.11"
clap = { version = "4", features = ["derive"] }
lalrpop-util = { version = "0.20", features = ["lexer"] }
