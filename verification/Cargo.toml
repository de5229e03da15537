[package]
name = "rpeg"
version = "0.1.0"
edition = "2021"
publish = false

[dependencies]
csc411_image = "*"
csc411_rpegio = "*"
csc411_arith = "*"
clap = { version = "*", features = ["derive"] }
