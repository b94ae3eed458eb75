[package]
name = "reeknote"
version = "3.0.24"
edition = "2021"
publish = false

[dependencies]
md5 = "=0.7.0"
base64 = "=0.22.1"
reqwest = { version = "=0.12.28", default-features = false, features = ["blocking", "rustls-tls"] }
thrift = "=0.17.0"
evernote = "=0.1.2"
image = { version = "=0.25.10", default-features = false, features = ["png"] }
tempfile = "=3.27.0"
mime_guess = "=2.0.5"
