[package]
name = "tephra"
version = "0.1.0"
edition = "2021"
publish = false

[dependencies]
unicode-width = "*"
few = "*"
colored = "*"
smallvec = "*"
simple_predicates = "*"
parking_lot = "*"
tracing = "*"
