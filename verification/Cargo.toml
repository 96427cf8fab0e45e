[package]
name = "acme_types"
version = "0.1.0"
edition = "2021"
publish = false

[dependencies]
base64 = "0.22"
bytes = "1"
http = "1"
hyper = { version = "1", default-features = false }
rcgen = { version = "0.14", default-features = false, features = ["crypto", "pem", "ring"] }
rustls-pki-types = { version = "1.12", features = ["std"] }
serde = { version = "1", features = ["derive"] }
serde_json = "1"
thiserror = "2"
time = { version = "0.3", features = ["formatting", "parsing", "serde"] }
x509-parser = { version = "0.18", features = ["verify"] }
