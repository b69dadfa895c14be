[package]
name = "ttrpc_trace"
version = "0.1.0"
edition = "2021"
publish = false

[dependencies]
opentelemetry = "0.27"
opentelemetry_sdk = "0.27"
opentelemetry-stdout = "0.27"
log = "0.4"
simple-logging = "2"
ctrlc = "3"
