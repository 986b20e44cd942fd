[package]
name = "s3_store"
version = "0.1.0"
edition = "2021"
publish = false

[dependencies]
async-trait = "0.1"
aws-sdk-s3 = "*"
aws-smithy-types = "*"
bytes = "1"
chrono = "0.4"
futures = "0.3"
http = "*"
object_store = "0.9"
thiserror = "*"
tokio = { version = "1", features = ["io-util", "rt"] }
