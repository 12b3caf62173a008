[package]
name = "urban_recreation"
version = "0.1.0"
edition = "2021"
publish = false

[dependencies]
tinyvec = { version = "1", features = ["serde"] }
regex = "1"
chrono = "0.4"
rand = "0.8"
rayon = "1"
serde = { version = "1", features = ["derive"] }
serde_json = "1"
serde_repr = "0.1"
simd-json = "*"
colored = "2"
lazy_static = "1"
nohash-hasher = "0.2"
actix-web = { version = "4", default-features = false, features = ["macros"] }
actix-cors = "*"
