[package]
name = "atasmart_exporter"
version = "0.1.0"
edition = "2021"
publish = false

[dependencies]
env_logger = "0.7.1"
libatasmart = "=0.3.3"
libatasmart-sys = "=0.2.1"
log = "=0.4.34"
prometheus = "0.8.0"
prometheus_exporter = "=0.5.0"
