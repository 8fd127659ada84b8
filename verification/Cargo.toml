[package]
name = "mandlebrot"
version = "0.1.0"
edition = "2021"
publish = false

[dependencies]
macroquad = "0.3"
dashu-float = "0.4"
chrono = "0.4"
rand = "0.8"
threadpool = "1.8"
num_cpus = "1"
native-dialog = "0.6"
