[package]
name = "fi_ledger"
version = "0.1.0"
edition = "2021"
publish = false

[dependencies]
chrono = "0.4"
serde_json = "1"
reqwest = { version = "*", default-features = false, features = ["blocking", "json"] }
dotenv = "*"
structopt = "0.3"
termion = "*"
textplots = "*"
