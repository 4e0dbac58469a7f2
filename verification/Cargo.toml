[package]
name = "tcp_sentinel"
version = "0.1.0"
edition = "2021"
publish = false

[dependencies]
pdu = "1"
time = "=0.2.27"
pnet = "0.35"
