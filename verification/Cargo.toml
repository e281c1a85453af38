[package]
name = "hole_diagram"
version = "0.1.0"
edition = "2021"
publish = false

[dependencies]
svg = "*"
serde = { version = "1", features = ["derive"] }
serde_json = "1"
actix-web = { version = "4", default-features = false, features = ["macros"] }
actix-cors = "*"
diesel = { version = "2", features = ["postgres", "r2d2"] }
dotenv = "0.15"
