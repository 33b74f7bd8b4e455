[package]
name = "kworker"
version = "0.1.0"
edition = "2021"
publish = false

[dependencies]
chrono = "0.4"
uuid = { version = "1", features = ["v4"] }
itertools = "*"
serde = { version = "1", features = ["derive"] }
handlebars = "*"
postgres = { version = "0.19", features = ["with-chrono-0_4"] }
postgres-native-tls = "*"
native-tls = "*"
rusoto_core = "*"
rusoto_s3 = "*"
walkdir = "2"
wait-timeout = "*"
fs_extra = "*"
dotenv = "*"
env_logger = "*"
log = "0.4"
actix-web = "*"
actix-files = "*"
