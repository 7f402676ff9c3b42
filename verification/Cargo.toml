[package]
name = "strand"
version = "0.1.0"
edition = "2021"
publish = false

[dependencies]
unicode-segmentation = "1"
nucleo = "0.5"
serde = { version = "1", features = ["derive"] }
toml = "0.8"
ignore = "0.4"
gtk4 = "*"
sourceview5 = "*"
libadwaita = "*"
relm4 = "*"
