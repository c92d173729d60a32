[package]
name = "syslog_client"
version = "0.1.0"
edition = "2021"
publish = false

[dependencies]
str-buf = "4"
os-id = "=3.1.0"
time-c = "=1.0.0-alpha.2"
log = { version = "=0.4.34", features = ["kv"] }
tracing = { version = "=0.1.44", default-features = false }
tracing-subscriber = { version = "=0.3.23", default-features = false, features = ["registry"] }
