[package]
name = "server_web"
version = "0.1.0"
edition = "2021"
publish = false

[dependencies]
regex = "1"
url = "2"
hmac = "0.10"
sha2 = "0.9"
hex = "0.4"
bcrypt = "0.10"
rust-crypto = "0.2"
nanoid = "0.2"
serde = { version = "1", features = ["derive"] }
serde_json = "1"
serde_qs = "0.8"
serde_urlencoded = "0.7"
actix-web = "3"
actix-multipart = "0.3"
actix-files = "0.5"
handlebars = "3"
futures = "0.3"
chrono = "0.4"
time = "0.2"
tokio = { version = "0.2", features = ["sync"] }
lettre = "0.9"
lettre_email = "0.9"
lazy_static = "1"
const_format = "0.2"
strum = { version = "0.20", features = ["derive"] }
css-inline = { version = "0.7", default-features = false }
tree_magic = "0.2"
