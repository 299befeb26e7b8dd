[package]
name = "cmdchat"
version = "0.1.0"
edition = "2021"
publish = false

[dependencies]
holo_hash = { version = "=0.2.2", features = ["encoding"] }
hdk = "=0.2.1"
holochain_zome_types = "=0.2.2"
rmp = "=0.8.11"
human-panic = "=2.0.8"
rustyline = "=19.0.0"
structopt = "=0.3.26"
tokio = { version = "=1.54.1", features = ["rt-multi-thread", "macros"] }
futures = "=0.3.34"
tracing = "=0.1.44"
