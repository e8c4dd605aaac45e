[package]
name = "connection_broker"
version = "0.1.0"
edition = "2021"
publish = false

[dependencies]
serde = { version = "1", features = ["derive"] }
serde_json = "1"
aws_lambda_events = { version = "*", default-features = false, features = ["apigw"] }
lambda_runtime = "*"
tokio = { version = "1", features = ["macros", "rt-multi-thread"] }
rusoto_core = { version = "*", default-features = false, features = ["rustls"] }
rusoto_apigatewaymanagementapi = { version = "*", default-features = false, features = ["rustls"] }
rusoto_dynamodbstreams = { version = "*", default-features = false, features = ["rustls", "deserialize_structs"] }
dynomite = { version = "*", default-features = false, features = ["derive", "rustls"] }
bytes = "1"
futures = "0.3"
log = "0.4"
simple_logger = "*"
quick-error = "*"
