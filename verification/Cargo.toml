[package]
name = "global_secrets_manager"
version = "0.2.0"
edition = "2021"
publish = false

[dependencies]
serde_json = "1.0.93"
once_cell = "1.17.0"
dotenvy = "0.15.6"
tokio = { version = "1.21.2", features = ["full"] }
aws-config = "0.54.1"
aws-sdk-secretsmanager = "0.24.0"
syn = "1.0"
quote = "1.0"
proc-macro2 = "1.0"
