[package]
name = "mpi_labs"
version = "0.1.0"
edition = "2021"
publish = false

[dependencies]
rand = "0.8"
mpi = "0.7"
clap = { version = "4", features = ["derive"] }
log = "0.4"
log4rs = "1"
num = "0.4"
num-traits = "0.2"
