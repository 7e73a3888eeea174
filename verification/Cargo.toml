[package]
name = "ember_rs"
version = "0.1.0"
edition = "2021"
publish = false

[dependencies]
flatbuffers = "24"
libm = "0.2"
proc-macro2 = "1"
proc-macro-error = "1"
quote = "1"
structmeta = "0.3"
syn = { version = "2", features = ["full", "parsing", "printing"] }
