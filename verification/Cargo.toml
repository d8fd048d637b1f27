[package]
name = "neocash"
version = "0.1.0"
edition = "2021"
publish = false

[dependencies]
chrono = "0.4"
clap = { version = "4", features = ["derive"] }
crossterm = "0.25"
ctrlc = "3"
dirs = "5"
nix = { version = "0.26", features = ["signal"] }
reqwest = { version = "0.11", default-features = false, features = ["blocking", "json"] }
rustyline = "10"
semver = "1"
serde = { version = "1", features = ["derive"] }
toml = "0.7"
tui = "0.19"
whoami = "1"
