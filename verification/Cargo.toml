[package]
name = "ts_doc"
version = "0.1.0"
edition = "2021"
publish = false

[dependencies]
indexmap = { version = "=2.14.2", features = ["serde"] }
md5 = "=0.8.1"
parcel-resolver = "=0.1.1"
serde = { version = "=1.0.229", features = ["derive", "rc"] }
serde_json = "=1.0.154"
swc_core = { version = "=83.0.0", features = ["common", "ecma_ast", "ecma_parser", "ecma_parser_typescript", "ecma_visit", "ecma_transforms", "ecma_codegen", "ecma_quote"] }
