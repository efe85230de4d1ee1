[package]
name = "pancake_column_decode"
version = "0.1.0"
edition = "2021"
publish = false

[dependencies]
pancake-db-core = "=0.2.0"
q_compress = "=0.9.3"
jni = "=0.19.0"

[dev-dependencies]
pancake-db-idl = "=0.2.0"
