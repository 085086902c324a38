[package]
name = "def-compiler"
version = "0.1.0"
edition = "2021"
publish = false

[dependencies]
argh = "0.1"
codespan-reporting = "*"
termcolor = "1"
