[package]
name = "flow_puzzle"
version = "0.1.0"
edition = "2021"

[dependencies]
getch = "*"
