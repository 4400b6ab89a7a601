[package]
name = "rargs"
version = "0.3.0"
edition = "2021"
publish = false

[dependencies]
regex = "1"
num_cpus = "1"
threadpool = "1"
structopt = "0.3"
