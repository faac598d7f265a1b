[package]
name = "openports"
version = "0.1.0"
edition = "2021"
publish = false

[dependencies]
netstat2 = "*"
sysinfo = "*"
users = "*"
clap = { version = "*", features = ["derive"] }
atty = "*"
shell-escape = "*"
tabular = "*"
