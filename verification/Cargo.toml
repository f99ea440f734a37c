[package]
name = "sudoku_solver"
version = "0.1.0"
edition = "2021"
publish = false

[dependencies]
itertools = "*"
multimap = { version = "*", default-features = false }
log = "*"
wasm-logger = "*"
yew = { version = "0.21", features = ["csr"] }
