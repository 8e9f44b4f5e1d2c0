[package]
name = "train_game"
version = "0.1.0"
edition = "2021"
publish = false

[dependencies]
glam = "*"
log = "*"
noise = "*"
early_returns = "*"
rdev = "*"
simple_logger = "*"
pollster = "*"
glm = "*"
glfw = "*"
