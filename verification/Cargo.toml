[package]
name = "iam_recon"
version = "0.1.0"
edition = "2021"
publish = false

[dependencies]
regex = "1"
chrono = "0.4"
ipnet = "2"
urlencoding = "2"
serde = { version = "1", features = ["derive"] }
serde_json = "1"
anyhow = "1"
thiserror = "*"
clap = { version = "4", features = ["derive"] }
tokio = { version = "1", features = ["full"] }
tracing = "0.1"
tracing-subscriber = { version = "0.3", features = ["env-filter"] }
rustyline = "*"
aws-config = "*"
aws-sdk-iam = "*"
aws-sdk-sts = "*"
aws-sdk-lambda = "*"
aws-sdk-codebuild = "*"
aws-sdk-cloudformation = "*"
aws-sdk-s3 = "*"
aws-sdk-sns = "*"
aws-sdk-sqs = "*"
aws-sdk-kms = "*"
aws-sdk-secretsmanager = "*"
