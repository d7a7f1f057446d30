[package]
name = "neoterminal"
version = "0.1.0"
edition = "2021"
publish = false

[dependencies]
chrono = "0.4"
ctrlc = "*"
devicons = "*"
dirs = "*"
rustyline = "*"
syntect = { version = "5", default-features = false, features = ["default-fancy"] }
sysinfo = "*"
walkdir = "2"
