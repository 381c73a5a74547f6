[package]
name = "latest_maven_version"
version = "0.1.0"
edition = "2021"
publish = false

[dependencies]
xmlparser = "=0.13.6"
semver = "=0.10.0"
lenient_semver = "=0.2.0"
itertools = "=0.10.5"
url = "=2.5.8"
base64 = "=0.13.1"
num_cpus = "=1.17.0"
async-trait = "=0.1.92"
clap = { version = "=3.2.25", features = ["derive"] }
color-eyre = "=0.6.5"
console = "=0.15.11"
dialoguer = "=0.11.0"
reqwest = { version = "=0.11.27", default-features = false, features = ["rustls-tls", "gzip"] }
serde = { version = "=1.0.229", features = ["derive"] }
serde-xml-rs = "=0.6.0"
tokio = { version = "=1.54.1", features = ["rt-multi-thread", "macros"] }
ureq = "=2.12.1"
