[package]
name = "yew_nav_link"
version = "0.1.0"
edition = "2021"
publish = false

[dependencies]
yew = "0.22"
yew-router = "0.19"
