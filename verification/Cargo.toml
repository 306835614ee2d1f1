[package]
name = "mandelbrot"
version = "0.1.0"
edition = "2021"
publish = false

[dependencies]
image = "*"
crossbeam = "*"
iron = "*"
router = "*"
urlencoded = "*"
logger = "*"
mime = "*"
env_logger = "*"
