[package]
name = "turbo_test"
version = "0.1.0"
edition = "2021"
publish = false

[dependencies]
base64 = "0.22"
serde_json = "1"
oxc_allocator = "0.134"
oxc_ast = "0.134"
oxc_ast_visit = "0.134"
oxc_codegen = "0.134"
oxc_parser = "0.134"
oxc_semantic = "0.134"
oxc_span = "0.134"
oxc_transformer = "0.134"
oxc_resolver = "*"
