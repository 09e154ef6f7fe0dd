[package]
name = "import_glob_array"
version = "0.1.0"
edition = "2021"
publish = false

[dependencies]
globwalk = "*"
is-glob = "*"
path-clean = "*"
swc_core = { version = "*", features = ["common", "ecma_ast", "ecma_visit"] }
