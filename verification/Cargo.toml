[package]
name = "crate_graph"
version = "0.1.0"
edition = "2021"
publish = false

[dependencies]
actix-web = "=4.15.0"
config = "=0.15.27"
redis = { version = "=1.7.1", features = ["tokio-comp", "connection-manager"] }
reqwest = { version = "=0.13.5", features = ["json"] }
semver-parser = "=0.10.3"
serde = { version = "=1.0.229", features = ["derive"] }
sqlx = { version = "=0.9.0", features = ["postgres", "runtime-tokio"] }
tokio = { version = "=1.53.2", features = ["rt"] }
