[package]
name = "simple_pdf"
version = "0.1.0"
edition = "2021"
publish = false
