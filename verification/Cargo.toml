[package]
name = "ssi_man"
version = "0.1.0"
edition = "2021"
publish = false

[dependencies]
diesel = { version = "=2.2.12", features = ["sqlite"] }
libsqlite3-sys = { version = "=0.30.1", features = ["bundled"] }
libc = "=0.2.190"
thiserror = "=2.0.21"
