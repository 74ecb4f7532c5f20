[package]
name = "prompt_eval"
version = "0.1.0"
edition = "2021"
publish = false

[dependencies]
anyhow = "1"
async-openai = "0.14"
bytesize = "1"
clap = { version = "4", features = ["derive"] }
futures = "0.3"
itertools = "0.14"
llm = "0.1.1"
rand = "0.8"
serde = { version = "1", features = ["derive"] }
serde_json = "1"
time = { version = "0.3", features = ["formatting"] }
tokio = { version = "1", features = ["rt-multi-thread"] }
tracing = "0.1"
tracing-subscriber = { version = "0.3", features = ["env-filter"] }
utf-8 = "0.7"
