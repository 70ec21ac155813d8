[package]
name = "bughunter"
version = "0.1.0"
edition = "2021"
publish = false

[dependencies]
oxc_allocator = "=0.143.0"
oxc_ast = "=0.143.0"
oxc_ast_visit = "=0.143.0"
oxc_parser = "=0.143.0"
oxc_span = "=0.143.0"
oxc_syntax = "=0.143.0"
libc = "=0.2.191"
tokio = { version = "=1.54.1", features = ["rt-multi-thread", "macros", "process", "time", "sync"] }
