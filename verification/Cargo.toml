[package]
name = "jack-do"
version = "0.1.0"
edition = "2021"
publish = false

[dependencies]
anyhow = "=1.0.104"
clap = { version = "=4.6.7", features = ["derive"] }
glob = "=0.3.4"
oxc_allocator = "=0.48.2"
oxc_ast = "=0.48.2"
oxc_index = "=2.0.0"
oxc_parser = "=0.48.2"
oxc_semantic = "=0.48.2"
oxc_span = "=0.48.2"
tokio = { version = "=1.54.1", features = ["macros", "rt-multi-thread"] }
tracing = "=0.1.44"
tracing-subscriber = "=0.3.23"
