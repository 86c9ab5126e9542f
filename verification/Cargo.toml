[package]
name = "ecalli_layout_backend"
version = "0.1.0"
edition = "2021"
publish = false

[dependencies]
image = { version = "0.25", default-features = false, features = ["png", "jpeg"] }
zip = { version = "*", default-features = false, features = ["deflate"] }
webp-animation = "*"
actix-cors = "*"
actix-http = "*"
actix-web = "*"
azure_storage = "*"
azure_storage_blobs = "*"
dotenv = "*"
serde = { version = "1", features = ["derive"] }
thiserror = "*"
tracing-actix-web = "*"
