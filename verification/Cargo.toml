[package]
name = "module_graph"
version = "0.1.0"
edition = "2021"
publish = false

[dependencies]
crossbeam = "*"
dashmap = "*"
rayon = "*"
smol_str = "*"
swc_common = "*"
swc_ecma_ast = "*"
swc_ecma_visit = "*"
