[package]
name = "motion_core"
version = "0.1.0"
edition = "2021"
publish = false

[dependencies]
evian = "=0.2.0"
vexide = "=0.4.2"
