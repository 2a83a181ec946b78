[package]
name = "symstate"
version = "0.1.0"
edition = "2021"
publish = false

[dependencies]
z3 = "=0.4.0"
boolector = "=0.4.3"
llvm-ir = { version = "=0.8.2", features = ["llvm-14"] }
llvm-sys = { version = "=140.1.3", features = ["prefer-dynamic"] }
itertools = "=0.8.2"
log = "=0.4.34"
reduce = "=0.1.5"
