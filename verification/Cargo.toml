[package]
name = "strain"
version = "0.1.0"
edition = "2021"
publish = false

[dependencies]
clap = { version = "=4.6.7", features = ["derive"] }
fern = "=0.6.2"
gmp-mpfr-sys = { version = "1", default-features = false, features = ["use-system-libs"] }
humantime = "=2.4.0"
log = "=0.4.34"
rug = { version = "=1.19.2", default-features = false, features = ["integer"] }
