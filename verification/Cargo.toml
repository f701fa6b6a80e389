[package]
name = "repairmen"
version = "0.1.0"
edition = "2021"
publish = false

[dependencies]
rand = "0.8"
pathfinding = "4"
ndarray = "0.15"
owo-colors = "3"
crossterm = "0.27"
