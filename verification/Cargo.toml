[package]
name = "oss_uploader"
version = "0.1.0"
edition = "2021"
publish = false

[dependencies]
anyhow = "=1.0.104"
aws-config = { version = "=1.12.0", features = ["behavior-version-latest"] }
aws-sdk-s3 = { version = "=1.152.0", features = ["behavior-version-latest"] }
aws-types = "=1.6.0"
clap = { version = "=4.6.7", features = ["derive"] }
indicatif = "=0.17.11"
tokio = { version = "=1.54.1", features = ["full"] }
urlencoding = "=2.1.3"
