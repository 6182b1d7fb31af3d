[package]
name = "query_worker"
version = "0.1.0"
edition = "2021"
publish = false

[dependencies]
uuid = "*"
aws-config = "*"
aws-sdk-s3 = "*"
aws-smithy-types = "*"
bytes = "*"
tokio = { version = "*", features = ["full"] }
tonic = "*"
async-trait = "*"
thiserror = "*"
