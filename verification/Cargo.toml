[package]
name = "ws_echo_server"
version = "0.1.0"
edition = "2021"
publish = false

[dependencies]
embedded-websocket = "=0.9.5"
httparse = "=1.10.1"
w5500 = "=0.2.1"
embedded-hal = "=0.2.7"
