[package]
name = "memoria-core"
version = "0.1.0"
edition = "2021"
publish = false

[dependencies]
serde = { version = "1", features = ["derive"] }
serde_json = "1"
uuid = { version = "1", features = ["v5"] }
clap = { version = "4", features = ["derive"] }
clap_complete = { version = "4", default-features = false }
reqwest = { version = "*", default-features = false, features = ["blocking", "json"] }
tokio = { version = "1", features = ["full"] }
rusqlite = { version = "*", features = ["bundled"] }
postgres = { version = "*", features = ["with-serde_json-1"] }
pgvector = { version = "*", features = ["postgres"] }
qdrant-client = { version = "*", default-features = false }
tonic = { version = "*", default-features = false }
chroma = { version = "*", default-features = false }
milvus = "*"
rmcp = { version = "*", default-features = false, features = ["server", "transport-io", "macros"] }
