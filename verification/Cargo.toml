[package]
name = "feed_query"
version = "0.1.0"
edition = "2021"
publish = false

[dependencies]
alloy-chains = "=0.1.69"
alloy-primitives = "=0.7.7"
alloy-provider = { version = "=0.1.4", default-features = false, features = ["reqwest"] }
alloy-rpc-client = { version = "=0.1.4", default-features = false, features = ["reqwest"] }
alloy-rpc-types = { version = "=0.1.4", default-features = false, features = ["eth"] }
alloy-transport-http = { version = "=0.1.4", default-features = false, features = ["reqwest"] }
clap = { version = "=4.6.7", default-features = false, features = ["derive", "error-context", "help", "std", "usage"] }
dotenv = "=0.15.0"
eyre = "=0.6.14"
reqwest = { version = "=0.12.28", default-features = false, features = ["rustls-tls"] }
tokio = { version = "=1.54.1", features = ["macros", "rt-multi-thread"] }

[dev-dependencies]
alloy-sol-types = "=0.7.7"
