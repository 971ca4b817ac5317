[package]
name = "pcbplot"
version = "0.1.0"
edition = "2021"
publish = false

[dependencies]
anyhow = "*"
clap = { version = "*", features = ["derive"] }
gerber_parser = "*"
gerber-types = "*"
i_float = "*"
i_overlay = "*"
svg = "*"
