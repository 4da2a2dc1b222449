[package]
name = "wtfis"
version = "0.1.0"
edition = "2021"
publish = false

[dependencies]
html5ever = "=0.39.0"
markup5ever_rcdom = "=0.39.0"
hyper = "=0.10.16"
hyper-native-tls = "=0.3.0"
