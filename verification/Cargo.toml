[package]
name = "rotor_redis"
version = "0.1.0"
edition = "2021"
publish = false

[dependencies]
rotor = "=0.6.3"
rotor-stream = "=0.5.1"
rotor-tools = "=0.3.2"
netbuf = "=0.3.8"
