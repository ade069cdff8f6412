[package]
name = "blog_auth"
version = "0.1.0"
edition = "2021"
publish = false

[dependencies]
actix-files = "0.5"
actix-web = "3"
bcrypt = "0.9"
chacha20poly1305 = "0.10"
chrono = { version = "0.4", features = ["serde"] }
derive_more = "0.99"
diesel = { version = "1.4", features = ["postgres", "r2d2", "chrono"] }
dotenv = "0.15"
ed25519-dalek = "2"
env_logger = "0.8"
envy = "0.4"
lazy_static = "1.4"
log = "0.4"
rust-argon2 = "0.8"
serde = { version = "1", features = ["derive"] }
serde_json = "1"
tera = "1"
