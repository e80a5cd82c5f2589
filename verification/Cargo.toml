[package]
name = "mesi"
version = "0.1.0"
edition = "2021"
publish = false

[dependencies]
encoding = "0.2"
regex = "1"
chrono = "0.4"
getopts = "0.2"
diesel = { version = "1.4", features = ["sqlite", "chrono"] }
dotenv = "0.15"
serde = { version = "1", features = ["derive"] }
serde_derive = "1"
serde_json = "1"
toml = "0.5"
iron = "0.6"
mount = "0.4"
staticfile = "0.5"
handlebars-iron = "0.27"
params = "0.8"
hyper-native-tls = "0.3"
grep-regex = "0.1"
grep-printer = "0.1"
grep-searcher = "0.1"
