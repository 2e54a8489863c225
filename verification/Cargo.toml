[package]
name = "c_sharp_analyzer_provider_cli"
version = "0.1.0"
edition = "2021"
publish = false

[dependencies]
anyhow = "1"
base64 = "0.22"
clap = { version = "4", features = ["derive"] }
clap-verbosity-flag = "*"
prost-types = "*"
regex = "1"
serde = { version = "1", features = ["derive"] }
serde_json = "1"
serde_yml = "*"
sha1 = "0.10"
stack-graphs = { version = "*", features = ["storage"] }
tokio = { version = "1", features = ["rt-multi-thread", "fs", "io-util", "sync"] }
tracing = "0.1"
tracing-log = "*"
tracing-subscriber = { version = "0.3", features = ["env-filter"] }
tree-sitter-c-sharp = "*"
tree-sitter-graph = "*"
tree-sitter-stack-graphs = "*"
url = "2"
walkdir = "2"
which = "*"
