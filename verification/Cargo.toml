[package]
name = "pipe_dream"
version = "0.1.0"
edition = "2021"
publish = false

[dependencies]
nu-protocol = "=0.112.2"
nu-parser = "=0.112.2"
nu-engine = "=0.112.2"
nu-cmd-lang = "=0.112.2"
nu-std = "=0.112.2"
dirs = "*"
miette = "*"
thiserror = "*"
