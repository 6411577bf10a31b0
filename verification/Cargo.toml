[package]
name = "worm_schema"
version = "0.1.0"
edition = "2021"
publish = false

[dependencies]
chrono = "0.4"
darling = "0.20"
dotenv = "0.15"
proc-macro2 = "1"
quote = "1"
syn = "2"
